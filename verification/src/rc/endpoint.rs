//! An endpoint of a reliable connection.

use std::collections::VecDeque;
use vstd::prelude::*;

use crate::arith::least;
use crate::encoding::{
    align_down, align_up, decode_batch_header, decode_imm, encode_batch_header, encode_imm,
    encode_message, padded_message_size, to_response_id, ALIGNMENT, FLOW_METADATA_SIZE,
    HEADER_SIZE, WRAP_MESSAGE_COUNT,
};
use crate::error::{CallError, Error, PostOutcome};
use crate::inbound::{
    lemma_settle_behind, lemma_settle_inside, messages_valid, take_messages, Inbox, RecvMessage,
    Response,
};
use crate::message::{lemma_messages_end_grows, lemma_padded_bounds, Format};
use crate::pending::{slots_after, PendingCalls};
use crate::rc::info::{
    EndpointConfig, LocalEndpointInfo, QpConnect, RemoteEndpointInfo, RemoteRingInfo, RingMemory,
    SrqEntry,
};
use crate::rc::state::{
    allowance_for, lemma_headed, lemma_sent, lemma_wrapped, lemma_wrote, raw_rdma,
    EndpointState, LocalSide, RawKind, RawRdma, WriteImm, MAX_INLINE_HYBRID, MAX_INLINE_ONLY,
    RAW_RDMA_SENTINEL_QPN, SIGNAL_INTERVAL,
};
use crate::rc::step::{
    flush_start, queues, CallInput, CallStage, CallStep, FlushStep, PendingCall, ReplyInput,
    ReplyStage, ReplyStep,
};
use crate::ring::{
    is_pow2, lemma_offset_aligned, lemma_offset_wrap, lemma_pow2_multiple_of_32, ring_offset,
};
use crate::wqe::Sge;

verus! {

/// An endpoint: one side of a connection to a peer.
pub struct Endpoint<U> {
    local: LocalSide,
    send_ring: Vec<u8>,
    remote_recv_ring: Option<RemoteRingInfo>,
    send_ring_producer: u64,
    recv_ring_producer: u64,
    last_recv_pos: u64,
    last_notified_recv_pos: u64,
    remote_consumer_pos: u64,
    unsignaled_count: u32,
    pending_calls: PendingCalls<U>,
    flush_start_pos: u64,
    resp_reservation: u64,
    peer_credit_balance: u64,
    meta_pos: u64,
    batch_message_count: u32,
    raw_rdma_posted: u32,
    raw_rdma_done: u32,
    needs_doorbell: bool,
    is_dirty: bool,
    told: u64,
    granted: u64,
}

/// What is in use and not yet with the device lies inside the send ring.
proof fn lemma_span<U>(s: EndpointState<U>)
    requires
        s.wf(),
    ensures
        0 <= s.producer - s.flush_start,
        s.offset(s.flush_start) + (s.producer - s.flush_start) <= s.len(),
        s.open_batch() ==> s.flush_start + 32 <= s.producer,
{
    if s.open_batch() {
        lemma_pow2_multiple_of_32(s.len());
        lemma_offset_aligned(s.meta_pos, s.len());
        lemma_messages_end_grows(Format::Rc, s.ring, s.meta_pos + 32, 0, s.batch_count as nat);
    }
}

/// Credit that a call takes. Tells whether it is a number of 64 bits; where it is not, it comes out
/// as the largest of them.
fn internal_allowance(response_allowance: u64) -> (r: (u64, bool))
    ensures
        r.0 == least(allowance_for(response_allowance as int), u64::MAX as int),
        r.1 == (allowance_for(response_allowance as int) <= u64::MAX),
{
    let overhead: u64 = HEADER_SIZE as u64 + FLOW_METADATA_SIZE as u64;
    if response_allowance > u64::MAX - overhead - (ALIGNMENT - 1) {
        (u64::MAX, false)
    } else {
        (align_up(response_allowance + overhead), true)
    }
}

impl<U> View for Endpoint<U> {
    type V = EndpointState<U>;

    closed spec fn view(&self) -> EndpointState<U> {
        EndpointState {
            local: self.local,
            ring: self.send_ring@,
            remote: self.remote_recv_ring,
            producer: self.send_ring_producer as int,
            recv_producer: self.recv_ring_producer as int,
            recv_pos: self.last_recv_pos as int,
            notified: self.last_notified_recv_pos as int,
            consumer: self.remote_consumer_pos as int,
            unsignaled: self.unsignaled_count as int,
            pending: self.pending_calls@,
            slots: self.pending_calls.slots(),
            flush_start: self.flush_start_pos as int,
            reservation: self.resp_reservation as int,
            peer_credit: self.peer_credit_balance as int,
            meta_pos: self.meta_pos as int,
            batch_count: self.batch_message_count as int,
            raw_posted: self.raw_rdma_posted as int,
            raw_done: self.raw_rdma_done as int,
            needs_doorbell: self.needs_doorbell,
            is_dirty: self.is_dirty,
            told: self.told as int,
            granted: self.granted as int,
        }
    }
}

impl<U> Endpoint<U> {
    /// The calls in progress are kept well.
    pub closed spec fn calls_wf(self) -> bool {
        self.pending_calls.wf()
    }

    /// Holds of every endpoint between operations.
    pub open spec fn wf(self) -> bool {
        self@.wf() && self.calls_wf()
    }

    /// Credit to grant to the peer with the next batch.
    fn compute_credit_grant(&self) -> (grant: u64)
        ensures
            grant == self@.grant(),
            self@.reservation <= self@.local.max_resp_reservation ==> self@.reservation + grant
                <= self@.local.max_resp_reservation,
    {
        let remote_ring = match self.remote_recv_ring {
            Some(r) => r,
            None => {
                return 0;
            },
        };
        let in_flight: u64 = self.send_ring_producer.saturating_sub(self.remote_consumer_pos);
        let current_r: u64 = self.resp_reservation;
        let max_by_invariant: u64 = (remote_ring.size.saturating_sub(in_flight) / 2).saturating_sub(
            current_r,
        );
        let max_by_policy: u64 = self.local.max_resp_reservation.saturating_sub(current_r);
        let grant: u64 = if max_by_invariant <= max_by_policy {
            max_by_invariant
        } else {
            max_by_policy
        };
        align_down(grant)
    }

    /// Writes the header of the open batch, with the credit that goes to the peer.
    fn write_batch_header(&mut self, message_count: u32)
        requires
            is_pow2(old(self)@.len()),
            0 <= old(self)@.offset(old(self)@.meta_pos),
            old(self)@.offset(old(self)@.meta_pos) + 32 <= old(self)@.len(),
            old(self)@.notified <= old(self)@.recv_pos,
            old(self)@.reservation <= old(self)@.local.max_resp_reservation,
        ensures
            final(self)@ == old(self)@.headed(message_count),
            final(self).calls_wf() == old(self).calls_wf(),
    {
        let meta_offset: usize = ring_offset(self.meta_pos, self.send_ring.len() as u64) as usize;
        let ring_credit_return: u64 = self.last_recv_pos - self.last_notified_recv_pos;
        let credit_grant: u64 = self.compute_credit_grant();
        self.told = ring_credit_return;
        self.granted = credit_grant;
        encode_batch_header(
            &mut self.send_ring,
            meta_offset,
            ring_credit_return,
            credit_grant,
            message_count,
        );
        assert(self@ =~= old(self)@.headed(message_count));
    }

    /// Closes the open batch: writes its header with its message count.
    fn fill_metadata(&mut self)
        requires
            old(self).wf(),
            old(self)@.open_batch(),
        ensures
            final(self)@ == old(self)@.filled(),
            final(self).wf(),
            final(self)@.open_batch(),
    {
        proof {
            lemma_headed(self@, self.batch_message_count);
        }
        self.write_batch_header(self.batch_message_count);
    }

    /// The work request that hands everything in use to the device.
    fn plan(&self, remote_ring: RemoteRingInfo) -> (wqe: WriteImm)
        requires
            self.wf(),
            self@.remote == Some(remote_ring),
        ensures
            wqe == self@.work_request(),
    {
        proof {
            lemma_span(self@);
        }
        let start: u64 = self.flush_start_pos;
        let delta: u64 = self.send_ring_producer - start;
        let imm: u32 = encode_imm(delta);
        let start_offset: usize = ring_offset(start, self.send_ring.len() as u64) as usize;
        let mask: u64 = remote_ring.size - 1;
        let remote_offset: u64 = start & mask;
        assert(start & mask <= mask) by (bit_vector);
        let remote_addr: u64 = remote_ring.addr + remote_offset;
        let signaled: Option<SrqEntry> = if self.unsignaled_count >= SIGNAL_INTERVAL {
            Some(SrqEntry { qpn: self.local.qpn })
        } else {
            None
        };
        let delta_usize: usize = delta as usize;
        if delta_usize <= MAX_INLINE_ONLY {
            WriteImm {
                remote_addr,
                rkey: remote_ring.rkey,
                imm,
                inline_offset: start_offset,
                inline_len: delta_usize,
                sge: None,
                signaled,
            }
        } else {
            let sge_offset: usize = start_offset + MAX_INLINE_HYBRID;
            let sge_len: u64 = delta - MAX_INLINE_HYBRID as u64;
            WriteImm {
                remote_addr,
                rkey: remote_ring.rkey,
                imm,
                inline_offset: start_offset,
                inline_len: MAX_INLINE_HYBRID,
                sge: Some(
                    Sge {
                        addr: self.local.send_ring_addr + sge_offset as u64,
                        len: (sge_len % 0x1_0000_0000) as u32,
                        lkey: self.local.send_ring_lkey,
                    },
                ),
                signaled,
            }
        }
    }

    /// The work request that hands everything in use to the device, if there is anything.
    pub fn emit_raw(&self) -> (r: Result<Option<WriteImm>, Error>)
        requires
            self.wf(),
        ensures
            r == (if self@.remote is None {
                Err(Error::RemoteConsumerUnknown)
            } else if self@.producer == self@.flush_start {
                Ok(None)
            } else {
                Ok(Some(self@.work_request()))
            }),
    {
        match self.remote_recv_ring {
            Some(remote_ring) => {
                if self.flush_start_pos == self.send_ring_producer {
                    Ok(None)
                } else {
                    Ok(Some(self.plan(remote_ring)))
                }
            },
            None => Err(Error::RemoteConsumerUnknown),
        }
    }

    /// Takes note that the device has everything in use.
    fn emit_done(&mut self)
        requires
            old(self).wf(),
        ensures
            final(self)@ == old(self)@.emitted(),
            final(self).calls_wf() == old(self).calls_wf(),
    {
        if self.unsignaled_count >= SIGNAL_INTERVAL {
            self.unsignaled_count = 0;
        } else {
            self.unsignaled_count = self.unsignaled_count + 1;
        }
        self.last_notified_recv_pos = self.last_notified_recv_pos + self.told;
        self.resp_reservation = self.resp_reservation + self.granted;
        self.told = 0;
        self.granted = 0;
        self.flush_start_pos = self.send_ring_producer;
        self.needs_doorbell = true;
    }

    /// Opens a batch behind everything in use.
    fn prepare_next_batch(&mut self)
        requires
            old(self)@.producer + 32 <= u64::MAX,
        ensures
            final(self)@ == old(self)@.prepared(),
            final(self).calls_wf() == old(self).calls_wf(),
    {
        let producer: u64 = self.send_ring_producer;
        self.meta_pos = producer;
        self.batch_message_count = 0;
        self.send_ring_producer = producer + FLOW_METADATA_SIZE as u64;
    }

    /// Takes note that the device has the open batch, and opens the next one.
    fn batch_sent(&mut self)
        requires
            old(self).wf(),
            old(self)@.open_batch(),
            old(self)@.producer + 32 <= u64::MAX,
        ensures
            final(self)@ == old(self)@.sent(),
            final(self).wf(),
            final(self)@.open_batch(),
    {
        proof {
            lemma_sent(self@);
        }
        self.emit_done();
        self.prepare_next_batch();
    }

    /// Position of the next ring cycle.
    fn cycle_end(&self) -> (r: u64)
        requires
            self@.wf(),
            self@.meta_pos + self@.len() <= u64::MAX,
        ensures
            r == self@.cycle_end(),
    {
        let ring_size: u64 = self.send_ring.len() as u64;
        self.meta_pos + (ring_size - ring_offset(self.meta_pos, ring_size))
    }

    /// Tells whether the peer's ring has room for the rest of the ring cycle beside `reserved` bytes.
    fn wrap_has_room(&self, remote_ring: RemoteRingInfo, reserved: u64) -> (r: bool)
        requires
            self@.wf(),
            self@.remote == Some(remote_ring),
            self@.meta_pos + self@.len() <= u64::MAX,
        ensures
            r == self@.wrap_fits(reserved as int),
    {
        let in_flight: u64 = self.cycle_end().saturating_sub(self.remote_consumer_pos);
        in_flight <= remote_ring.size && reserved <= remote_ring.size - in_flight
    }

    /// Takes note that the device refused a work request.
    fn post_refused(&mut self)
        requires
            old(self).wf(),
            old(self)@.open_batch(),
        ensures
            final(self)@ == old(self)@.refused(),
            final(self).wf(),
            final(self)@.open_batch(),
    {
        self.told = 0;
        self.granted = 0;
    }

    /// Gives the place of the open batch, which is empty, to one that runs to the end of the ring
    /// cycle. Returns the work request for it.
    fn emit_wrap(&mut self, remote_ring: RemoteRingInfo) -> (wqe: WriteImm)
        requires
            old(self).wf(),
            old(self)@.open_batch(),
            old(self)@.remote == Some(remote_ring),
            old(self)@.batch_count == 0,
            old(self)@.meta_pos + old(self)@.len() <= u64::MAX,
        ensures
            final(self)@ == old(self)@.wrapped(),
            final(self).wf(),
            final(self)@.open_batch(),
            wqe == final(self)@.work_request(),
    {
        proof {
            lemma_wrapped(self@);
        }
        self.send_ring_producer = self.cycle_end();
        assert(self@ =~= EndpointState { producer: old(self)@.cycle_end(), ..old(self)@ });
        self.write_batch_header(WRAP_MESSAGE_COUNT);
        self.plan(remote_ring)
    }

    /// Sends the open batch and tells the device, if there is anything to tell.
    pub fn flush(&mut self) -> (step: FlushStep)
        requires
            old(self).wf(),
            old(self)@.settled(),
        ensures
            (final(self)@, step) == flush_start(old(self)@),
            final(self).wf(),
            final(self)@.settled(),
    {
        if self.batch_message_count > 0 {
            self.fill_metadata();
            proof {
                lemma_span(self@);
            }
            if let Ok(Some(wqe)) = self.emit_raw() {
                return FlushStep::Post(wqe);
            }
        }
        let ring_doorbell: bool = self.needs_doorbell;
        self.needs_doorbell = false;
        FlushStep::Done { ring_doorbell }
    }

    /// Goes on with a flush. Where it succeeds, the device has to be told.
    pub fn flush_posted(&mut self, outcome: PostOutcome) -> (r: Result<(), Error>)
        requires
            old(self).wf(),
            old(self)@.open_batch(),
            old(self)@.producer + 32 <= u64::MAX,
        ensures
            final(self).wf(),
            final(self)@.open_batch(),
            match outcome {
                PostOutcome::Posted => r is Ok && final(self)@ == old(self)@.sent().rung(),
                _ => r == Err::<(), Error>(Error::Io) && final(self)@ == old(self)@.refused(),
            },
    {
        match outcome {
            PostOutcome::Posted => {
                self.batch_sent();
                self.needs_doorbell = false;
                Ok(())
            },
            _ => {
                self.post_refused();
                Err(Error::Io)
            },
        }
    }

    /// Tells whether the position of the next batch is in range.
    pub fn can_flush(&self) -> (r: bool)
        ensures
            r == (self@.producer + 32 <= u64::MAX),
    {
        self.send_ring_producer <= u64::MAX - FLOW_METADATA_SIZE as u64
    }

    /// Tells whether positions stay in range while a message of `payload_len` bytes is sent.
    fn has_room_to_run(&self, payload_len: usize) -> (r: bool)
        requires
            self.wf(),
        ensures
            r == (payload_len <= u32::MAX && self@.room_to_run(payload_len as int)),
    {
        if payload_len as u64 > u32::MAX as u64 {
            return false;
        }
        let size: u64 = padded_message_size(payload_len as u32);
        let len: u64 = self.send_ring.len() as u64;
        proof {
            assert(self@.local.send_ring_addr + self@.len() <= u64::MAX);
        }
        self.send_ring_producer <= u64::MAX - len && self.send_ring_producer + len <= u64::MAX - size
            - 128 && self.batch_message_count < u32::MAX
    }

    /// Tells whether the endpoint is connected or was never connected.
    fn is_settled(&self) -> (r: bool)
        requires
            self.wf(),
        ensures
            r == self@.settled(),
            self@.remote is Some ==> r == self@.open_batch(),
    {
        proof {
            lemma_span(self@);
        }
        self.remote_recv_ring.is_none() || self.send_ring_producer > 0
    }

    /// Tells whether a call with a request of `payload_len` bytes can be made, or gone on with.
    pub fn can_call(&self, payload_len: usize) -> (r: bool)
        requires
            self.wf(),
        ensures
            r == {
                &&& self@.settled()
                &&& payload_len <= u32::MAX
                &&& self@.room_to_run(payload_len as int)
                &&& self@.pending.len() < usize::MAX / 128
                &&& self@.remote is Some ==> self@.holds(Format::Rc.padded(payload_len as int))
            },
    {
        if !self.is_settled() || !self.has_room_to_run(payload_len) || self.pending_calls.len()
            >= usize::MAX / 128 {
            return false;
        }
        match self.remote_recv_ring {
            Some(remote_ring) => {
                let size: u64 = padded_message_size(payload_len as u32);
                32 + size <= self.send_ring.len() as u64 || remote_ring.size < size || (
                remote_ring.size < 32 + size && self.remote_consumer_pos <= self.meta_pos)
            },
            None => true,
        }
    }

    /// Tells whether a reply of `payload_len` bytes can be made, or gone on with.
    pub fn can_reply(&self, payload_len: usize) -> (r: bool)
        requires
            self.wf(),
        ensures
            r == {
                &&& self@.settled()
                &&& payload_len <= u32::MAX
                &&& self@.room_to_run(payload_len as int)
                &&& self@.remote is Some ==> 32 + Format::Rc.padded(payload_len as int)
                    <= self@.len()
            },
    {
        self.is_settled() && self.has_room_to_run(payload_len) && (self.remote_recv_ring.is_none()
            || 32 + padded_message_size(payload_len as u32) <= self.send_ring.len() as u64)
    }

    /// Tells whether there is anything to flush.
    pub fn has_pending_send(&self) -> (r: bool)
        ensures
            r == (self@.batch_count > 0 || self@.needs_doorbell),
    {
        self.batch_message_count > 0 || self.needs_doorbell
    }

    /// Marks the endpoint for the next flush.
    pub fn mark_dirty(&mut self, queue: &mut VecDeque<usize>)
        ensures
            final(self)@ == old(self)@.marked(),
            final(self).calls_wf() == old(self).calls_wf(),
            queues(old(self)@, final(self)@, old(queue)@, final(queue)@),
    {
        if self.is_dirty {
            return ;
        }
        self.is_dirty = true;
        queue.push_back(self.local.slot);
    }

    /// Tells whether a message of `size` bytes belongs into the next ring cycle.
    fn wrap_needed(&self, size: u64) -> (r: bool)
        requires
            self@.wf(),
            self@.open_batch(),
            self@.len() + size <= u64::MAX,
        ensures
            r == self@.wrap_due(size as int),
    {
        proof {
            lemma_span(self@);
        }
        let ring_size: u64 = self.send_ring.len() as u64;
        let meta_offset: u64 = ring_offset(self.meta_pos, ring_size);
        let batch_span: u64 = (self.send_ring_producer - self.meta_pos) + size;
        meta_offset + batch_span >= ring_size
    }

    /// Puts a message behind the open batch.
    fn write_message(&mut self, call_id: u32, piggyback: u64, data: &[u8])
        requires
            old(self).wf(),
            old(self)@.open_batch(),
            old(self)@.batch_count == 0 ==> old(self)@.producer == old(self)@.meta_pos + 32,
            old(self)@.producer + Format::Rc.padded(data@.len() as int) <= u64::MAX,
            old(self)@.batch_count < u32::MAX,
            data@.len() <= u32::MAX,
            old(self)@.offset(old(self)@.meta_pos) + (old(self)@.producer - old(self)@.meta_pos)
                + Format::Rc.padded(data@.len() as int) <= old(self)@.len(),
        ensures
            final(self)@ == old(self)@.wrote(call_id, piggyback, data@),
            final(self).wf(),
            final(self)@.open_batch(),
    {
        proof {
            lemma_wrote(self@, call_id, piggyback, data@);
        }
        let producer: u64 = self.send_ring_producer;
        let msg_size: u64 = padded_message_size(data.len() as u32);
        let send_offset: usize = ring_offset(producer, self.send_ring.len() as u64) as usize;
        encode_message(&mut self.send_ring, send_offset, call_id, piggyback, data);
        self.send_ring_producer = producer + msg_size;
        self.batch_message_count = self.batch_message_count + 1;
        assert(self@ =~= old(self)@.wrote(call_id, piggyback, data@));
    }

    /// Refuses a call once the open batch is sent.
    fn refuse_call(
        &mut self,
        stage: CallStage,
        user_data: U,
        allowance: u64,
        Ghost(data): Ghost<Seq<u8>>,
    ) -> (step: CallStep<U>)
        requires
            old(self).wf(),
            old(self)@.open_batch(),
        ensures
            final(self).wf(),
            final(self)@.open_batch(),
            final(self)@.is_dirty == old(self)@.is_dirty,
            (CallInput { data, user_data, allowance: allowance as int }).refuses(
                stage,
                old(self)@,
                final(self)@,
                step,
            ),
    {
        match self.flush() {
            FlushStep::Post(wqe) => CallStep::Post(PendingCall { user_data, allowance, stage, wqe }),
            FlushStep::Done { ring_doorbell } => {
                let error = match stage {
                    CallStage::CreditFlush => CallError::InsufficientCredit(user_data),
                    _ => CallError::RingFull(user_data),
                };
                CallStep::Done { result: Err(error), ring_doorbell }
            },
        }
    }

    /// Puts a request into the open batch if the peer's ring has room.
    #[verifier::rlimit(50)]
    fn place_call(
        &mut self,
        queue: &mut VecDeque<usize>,
        remote_ring: RemoteRingInfo,
        data: &[u8],
        user_data: U,
        allowance: u64,
    ) -> (step: CallStep<U>)
        requires
            old(self).wf(),
            old(self)@.open_batch(),
            old(self)@.remote == Some(remote_ring),
            old(self)@.batch_count == 0 ==> old(self)@.producer == old(self)@.meta_pos + 32,
            old(self)@.producer + Format::Rc.padded(data@.len() as int) <= u64::MAX,
            old(self)@.batch_count < u32::MAX,
            old(self)@.pending.len() < usize::MAX / 128,
            data@.len() <= u32::MAX,
            allowance <= old(self)@.peer_credit,
            old(self)@.has_space(Format::Rc.padded(data@.len() as int)) ==> old(self)@.offset(
                old(self)@.meta_pos,
            ) + (old(self)@.producer - old(self)@.meta_pos) + Format::Rc.padded(data@.len() as int)
                <= old(self)@.len(),
        ensures
            final(self).wf(),
            final(self)@.open_batch(),
            (CallInput { data: data@, user_data, allowance: allowance as int }).places(
                old(self)@,
                final(self)@,
                step,
            ),
            queues(old(self)@, final(self)@, old(queue)@, final(queue)@),
    {
        let msg_size: u64 = padded_message_size(data.len() as u32);
        let producer: u64 = self.send_ring_producer;
        let available: u64 = remote_ring.size.saturating_sub(
            producer.saturating_sub(self.remote_consumer_pos),
        );
        let reserved: u64 = 2 * self.resp_reservation;
        let ghost input = CallInput { data: data@, user_data, allowance: allowance as int };
        if available < msg_size + reserved {
            return self.refuse_call(CallStage::SpaceFlush, user_data, allowance, Ghost(data@));
        }
        let key: usize = self.pending_calls.insert(user_data);
        let call_id: u32 = (key as u64 % 0x1_0000_0000) as u32;
        let blocks: u64 = allowance / ALIGNMENT;
        let ghost inserted = self@;
        assert(inserted =~= EndpointState {
            pending: old(self)@.pending.insert(key, user_data),
            slots: slots_after(old(self)@.slots, old(self)@.pending.len()),
            ..old(self)@
        });
        self.write_message(call_id, blocks, data);
        self.mark_dirty(queue);
        self.peer_credit_balance = self.peer_credit_balance - allowance;
        let step = CallStep::Done { result: Ok(call_id), ring_doorbell: false };
        assert(input.accepts(key, old(self)@, self@, step));
        step
    }

    /// Sends a request. `response_allowance` is the most bytes that the response will have.
    #[verifier::rlimit(50)]
    pub fn call(
        &mut self,
        queue: &mut VecDeque<usize>,
        data: &[u8],
        user_data: U,
        response_allowance: u64,
    ) -> (step: CallStep<U>)
        requires
            old(self).wf(),
            old(self)@.settled(),
            old(self)@.room_to_run(data@.len() as int),
            old(self)@.pending.len() < usize::MAX / 128,
            data@.len() <= u32::MAX,
            old(self)@.remote is Some ==> old(self)@.holds(Format::Rc.padded(data@.len() as int)),
        ensures
            final(self).wf(),
            final(self)@.settled(),
            (CallInput {
                data: data@,
                user_data,
                allowance: allowance_for(response_allowance as int),
            }).starts(old(self)@, final(self)@, step),
            queues(old(self)@, final(self)@, old(queue)@, final(queue)@),
    {
        let remote_ring = match self.remote_recv_ring {
            Some(r) => r,
            None => {
                return CallStep::Done {
                    result: Err(CallError::Other(Error::RemoteConsumerUnknown)),
                    ring_doorbell: false,
                };
            },
        };
        let (allowance, exact) = internal_allowance(response_allowance);
        if !exact || self.peer_credit_balance < allowance {
            let step = self.refuse_call(CallStage::CreditFlush, user_data, allowance, Ghost(data@));
            assert((CallInput {
                data: data@,
                user_data,
                allowance: allowance_for(response_allowance as int),
            }).refuses(CallStage::CreditFlush, old(self)@, self@, step));
            return step;
        }
        let msg_size: u64 = padded_message_size(data.len() as u32);
        if !self.wrap_needed(msg_size) {
            return self.place_call(queue, remote_ring, data, user_data, allowance);
        }
        if self.batch_message_count > 0 {
            self.fill_metadata();
            let wqe = self.plan(remote_ring);
            return CallStep::Post(
                PendingCall { user_data, allowance, stage: CallStage::CloseBatch, wqe },
            );
        }
        self.skip_call(queue, remote_ring, data, user_data, allowance)
    }

    /// Puts a request into the next ring cycle.
    #[verifier::rlimit(50)]
    fn skip_call(
        &mut self,
        queue: &mut VecDeque<usize>,
        remote_ring: RemoteRingInfo,
        data: &[u8],
        user_data: U,
        allowance: u64,
    ) -> (step: CallStep<U>)
        requires
            old(self).wf(),
            old(self)@.open_batch(),
            old(self)@.remote == Some(remote_ring),
            old(self)@.batch_count == 0,
            old(self)@.meta_pos + old(self)@.len() + 32 <= u64::MAX,
            old(self)@.meta_pos + 32 + Format::Rc.padded(data@.len() as int) <= u64::MAX,
            old(self)@.pending.len() < usize::MAX / 128,
            data@.len() <= u32::MAX,
            old(self)@.holds(Format::Rc.padded(data@.len() as int)),
            allowance <= old(self)@.peer_credit,
        ensures
            final(self).wf(),
            final(self)@.open_batch(),
            (CallInput { data: data@, user_data, allowance: allowance as int }).skips(
                old(self)@,
                final(self)@,
                step,
            ),
            queues(old(self)@, final(self)@, old(queue)@, final(queue)@),
    {
        let reserved: u64 = 2 * self.resp_reservation;
        if !self.wrap_has_room(remote_ring, reserved) {
            return self.refuse_call(CallStage::SpaceFlush, user_data, allowance, Ghost(data@));
        }
        let wqe = self.emit_wrap(remote_ring);
        CallStep::Post(PendingCall { user_data, allowance, stage: CallStage::Wrap, wqe })
    }

    /// Goes on with a call when the device has answered.
    #[verifier::rlimit(50)]
    pub fn call_posted(
        &mut self,
        queue: &mut VecDeque<usize>,
        data: &[u8],
        pending: PendingCall<U>,
        outcome: PostOutcome,
    ) -> (step: CallStep<U>)
        requires
            old(self).wf(),
            old(self)@.open_batch(),
            old(self)@.room_to_run(data@.len() as int),
            old(self)@.pending.len() < usize::MAX / 128,
            data@.len() <= u32::MAX,
            old(self)@.holds(Format::Rc.padded(data@.len() as int)),
            pending.stage is CloseBatch || pending.stage is Wrap ==> pending.allowance
                <= old(self)@.peer_credit,
            pending.stage is Wrap ==> old(self)@.offset(old(self)@.producer) == 0,
        ensures
            final(self).wf(),
            final(self)@.open_batch(),
            (CallInput {
                data: data@,
                user_data: pending.user_data,
                allowance: pending.allowance as int,
            }).resumes(pending.stage, outcome, old(self)@, final(self)@, step),
            queues(old(self)@, final(self)@, old(queue)@, final(queue)@),
    {
        let PendingCall { user_data, allowance, stage, wqe: _ } = pending;
        match outcome {
            PostOutcome::Posted => {},
            _ => {
                self.post_refused();
                return CallStep::Done {
                    result: Err(CallError::Other(Error::Io)),
                    ring_doorbell: false,
                };
            },
        }
        let remote_ring = match self.remote_recv_ring {
            Some(r) => r,
            None => {
                return CallStep::Done {
                    result: Err(CallError::Other(Error::RemoteConsumerUnknown)),
                    ring_doorbell: false,
                };
            },
        };
        proof {
            lemma_span(self@);
            lemma_padded_bounds(Format::Rc, data@.len() as int);
        }
        self.batch_sent();
        match stage {
            CallStage::CreditFlush => {
                self.needs_doorbell = false;
                CallStep::Done {
                    result: Err(CallError::InsufficientCredit(user_data)),
                    ring_doorbell: true,
                }
            },
            CallStage::SpaceFlush => {
                self.needs_doorbell = false;
                CallStep::Done { result: Err(CallError::RingFull(user_data)), ring_doorbell: true }
            },
            CallStage::CloseBatch => {
                self.skip_call(queue, remote_ring, data, user_data, allowance)
            },
            CallStage::Wrap => self.place_call(queue, remote_ring, data, user_data, allowance),
        }
    }

    /// Puts a response into the open batch and gives the allowance of its request back.
    fn place_reply(
        &mut self,
        queue: &mut VecDeque<usize>,
        call_id: u32,
        response_allowance: u64,
        data: &[u8],
    )
        requires
            old(self).wf(),
            old(self)@.open_batch(),
            old(self)@.batch_count == 0 ==> old(self)@.producer == old(self)@.meta_pos + 32,
            old(self)@.producer + Format::Rc.padded(data@.len() as int) <= u64::MAX,
            old(self)@.batch_count < u32::MAX,
            data@.len() <= u32::MAX,
            old(self)@.offset(old(self)@.meta_pos) + (old(self)@.producer - old(self)@.meta_pos)
                + Format::Rc.padded(data@.len() as int) <= old(self)@.len(),
        ensures
            final(self).wf(),
            final(self)@.open_batch(),
            final(self)@ == (ReplyInput {
                call_id,
                response_allowance: response_allowance as int,
                data: data@,
            }).placed(old(self)@),
            queues(old(self)@, final(self)@, old(queue)@, final(queue)@),
    {
        self.write_message(to_response_id(call_id), 0, data);
        self.resp_reservation = self.resp_reservation.saturating_sub(response_allowance);
        self.mark_dirty(queue);
    }

    /// Answers request `call_id`, for which the caller set `response_allowance` bytes aside.
    pub fn reply(
        &mut self,
        queue: &mut VecDeque<usize>,
        call_id: u32,
        response_allowance: u64,
        data: &[u8],
    ) -> (step: ReplyStep)
        requires
            old(self).wf(),
            old(self)@.settled(),
            old(self)@.room_to_run(data@.len() as int),
            data@.len() <= u32::MAX,
            old(self)@.remote is Some ==> 32 + Format::Rc.padded(data@.len() as int)
                <= old(self)@.len(),
        ensures
            final(self).wf(),
            final(self)@.settled(),
            (final(self)@, step) == (ReplyInput {
                call_id,
                response_allowance: response_allowance as int,
                data: data@,
            }).start(old(self)@),
            queues(old(self)@, final(self)@, old(queue)@, final(queue)@),
    {
        let remote_ring = match self.remote_recv_ring {
            Some(r) => r,
            None => {
                return ReplyStep::Done(Err(Error::RemoteConsumerUnknown));
            },
        };
        let msg_size: u64 = padded_message_size(data.len() as u32);
        if !self.wrap_needed(msg_size) {
            self.place_reply(queue, call_id, response_allowance, data);
            return ReplyStep::Done(Ok(()));
        }
        if self.batch_message_count > 0 {
            self.fill_metadata();
            let wqe = self.plan(remote_ring);
            return ReplyStep::Post { stage: ReplyStage::CloseBatch, wqe };
        }
        self.skip_reply(queue, remote_ring, call_id, response_allowance, data)
    }

    /// Puts a response into the next ring cycle.
    fn skip_reply(
        &mut self,
        queue: &mut VecDeque<usize>,
        remote_ring: RemoteRingInfo,
        call_id: u32,
        response_allowance: u64,
        data: &[u8],
    ) -> (step: ReplyStep)
        requires
            old(self).wf(),
            old(self)@.open_batch(),
            old(self)@.remote == Some(remote_ring),
            old(self)@.batch_count == 0,
            old(self)@.meta_pos + old(self)@.len() + 32 <= u64::MAX,
            old(self)@.len() + Format::Rc.padded(data@.len() as int) <= u64::MAX,
            old(self)@.meta_pos + 32 + Format::Rc.padded(data@.len() as int) <= u64::MAX,
            data@.len() <= u32::MAX,
            32 + Format::Rc.padded(data@.len() as int) <= old(self)@.len(),
        ensures
            final(self).wf(),
            final(self)@.open_batch(),
            (final(self)@, step) == (ReplyInput {
                call_id,
                response_allowance: response_allowance as int,
                data: data@,
            }).skip(old(self)@),
            queues(old(self)@, final(self)@, old(queue)@, final(queue)@),
    {
        let needed: bool = self.wrap_needed(padded_message_size(data.len() as u32));
        let reserved: u64 = if needed {
            0
        } else {
            2 * self.resp_reservation
        };
        if self.wrap_has_room(remote_ring, reserved) {
            let wqe = self.emit_wrap(remote_ring);
            return ReplyStep::Post { stage: ReplyStage::Wrap, wqe };
        }
        if needed {
            return ReplyStep::Done(Err(Error::RingFull));
        }
        proof {
            lemma_offset_wrap(self@.meta_pos, self@.len());
        }
        self.place_reply(queue, call_id, response_allowance, data);
        ReplyStep::Done(Ok(()))
    }

    /// Goes on with a reply when the device has answered.
    #[verifier::rlimit(50)]
    pub fn reply_posted(
        &mut self,
        queue: &mut VecDeque<usize>,
        call_id: u32,
        response_allowance: u64,
        data: &[u8],
        stage: ReplyStage,
        outcome: PostOutcome,
    ) -> (step: ReplyStep)
        requires
            old(self).wf(),
            old(self)@.open_batch(),
            old(self)@.room_to_run(data@.len() as int),
            data@.len() <= u32::MAX,
            32 + Format::Rc.padded(data@.len() as int) <= old(self)@.len(),
            stage is Wrap ==> old(self)@.offset(old(self)@.producer) == 0,
        ensures
            final(self).wf(),
            final(self)@.open_batch(),
            (final(self)@, step) == (ReplyInput {
                call_id,
                response_allowance: response_allowance as int,
                data: data@,
            }).resume(stage, outcome, old(self)@),
            queues(old(self)@, final(self)@, old(queue)@, final(queue)@),
    {
        match outcome {
            PostOutcome::Posted => {},
            _ => {
                self.post_refused();
                return ReplyStep::Done(Err(Error::Io));
            },
        }
        let remote_ring = match self.remote_recv_ring {
            Some(r) => r,
            None => {
                return ReplyStep::Done(Err(Error::RemoteConsumerUnknown));
            },
        };
        self.batch_sent();
        match stage {
            ReplyStage::CloseBatch => {
                self.skip_reply(queue, remote_ring, call_id, response_allowance, data)
            },
            ReplyStage::Wrap => {
                self.place_reply(queue, call_id, response_allowance, data);
                ReplyStep::Done(Ok(()))
            },
        }
    }

    /// Tells whether the batch to read next can be taken in.
    pub fn batch_valid(&self, recv_ring: &[u8], imm: u32) -> (r: bool)
        requires
            self.wf(),
        ensures
            r == self@.can_receive(recv_ring@, imm),
    {
        let len: u64 = recv_ring.len() as u64;
        if len != self.local.recv_ring_len {
            return false;
        }
        let pos: u64 = self.last_recv_pos;
        let at: usize = ring_offset(pos, len) as usize;
        if recv_ring.len() - at < FLOW_METADATA_SIZE {
            return false;
        }
        let (ring_credit_return, credit_grant, message_count) = decode_batch_header(recv_ring, at);
        if self.recv_ring_producer > u64::MAX - decode_imm(imm) || self.remote_consumer_pos > u64::MAX
            - ring_credit_return || self.peer_credit_balance > u64::MAX - credit_grant {
            return false;
        }
        if pos > u64::MAX - FLOW_METADATA_SIZE as u64 {
            proof {
                lemma_messages_end_grows(
                    Format::Rc,
                    recv_ring@,
                    pos + 32,
                    0,
                    message_count as nat,
                );
            }
            return false;
        }
        let first: u64 = pos + FLOW_METADATA_SIZE as u64;
        if message_count == WRAP_MESSAGE_COUNT {
            imm > 0 && pos <= u64::MAX - decode_imm(imm)
        } else {
            messages_valid(Format::Rc, recv_ring, first, message_count, &self.pending_calls)
        }
    }

    /// Takes in the batch that a completion with immediate value `imm` announced. Requests go to
    /// the end of `requests`, responses are returned with the user data of their calls.
    #[verifier::rlimit(50)]
    pub fn receive(
        &mut self,
        recv_ring: &[u8],
        imm: u32,
        requests: &mut Vec<RecvMessage>,
    ) -> (responses: Vec<Response<U>>)
        requires
            old(self).wf(),
            old(self)@.can_receive(recv_ring@, imm),
        ensures
            final(self).wf(),
            final(self)@ == old(self)@.received(recv_ring@, imm),
            (Inbox {
                pending: final(self)@.pending,
                responses: responses@,
                requests: final(requests)@,
            }) == old(self)@.inbox(recv_ring@, old(requests)@),
            forall|i: int|
                0 <= i < responses@.len() ==> {
                    &&& (#[trigger] responses@[i]).data_offset + responses@[i].data_len
                        <= recv_ring@.len()
                    &&& responses@[i].endpoint == old(self)@.local.slot
                },
            old(requests)@.len() <= final(requests)@.len(),
            forall|i: int|
                0 <= i < old(requests)@.len() ==> final(requests)@[i] == old(requests)@[i],
            forall|i: int|
                old(requests)@.len() <= i < final(requests)@.len() ==> {
                    &&& (#[trigger] final(requests)@[i]).data_offset <= recv_ring@.len()
                    &&& final(requests)@[i].endpoint == old(self)@.local.slot
                    &&& final(requests)@[i].id == old(self)@.local.qpn
                },
    {
        let mut responses: Vec<Response<U>> = Vec::new();
        let pos: u64 = self.last_recv_pos;
        let at: usize = ring_offset(pos, recv_ring.len() as u64) as usize;
        let (ring_credit_return, credit_grant, message_count) = decode_batch_header(recv_ring, at);
        self.recv_ring_producer = self.recv_ring_producer + decode_imm(imm);
        self.remote_consumer_pos = self.remote_consumer_pos + ring_credit_return;
        self.peer_credit_balance = self.peer_credit_balance + credit_grant;
        proof {
            let n = message_count as nat;
            let before = old(self)@;
            lemma_messages_end_grows(Format::Rc, recv_ring@, pos + 32, 0, n);
            lemma_settle_behind(
                before.arrival(recv_ring@),
                before.local.slot,
                before.local.qpn,
                before.pending,
                Seq::<Response<U>>::empty(),
                requests@,
                n,
            );
            if message_count != WRAP_MESSAGE_COUNT {
                lemma_settle_inside(
                    before.arrival(recv_ring@),
                    before.local.slot,
                    before.local.qpn,
                    before.pending,
                    n,
                    n,
                );
            }
        }
        let first: u64 = pos + FLOW_METADATA_SIZE as u64;
        if message_count == WRAP_MESSAGE_COUNT {
            self.last_recv_pos = pos + decode_imm(imm);
            return responses;
        }
        let end: u64 = take_messages(
            Format::Rc,
            recv_ring,
            first,
            message_count,
            self.local.slot,
            self.local.qpn,
            &mut self.pending_calls,
            &mut responses,
            requests,
        );
        self.last_recv_pos = end;
        responses
    }

    /// Makes an endpoint on a queue pair whose rings have been registered.
    pub fn new(
        config: &EndpointConfig,
        slot: usize,
        qpn: u32,
        send_ring: Vec<u8>,
        memory: &RingMemory,
    ) -> (r: Self)
        requires
            is_pow2(send_ring@.len() as int),
            32 <= send_ring@.len(),
            memory.send_addr + send_ring@.len() <= u64::MAX,
            is_pow2(memory.recv_len as int),
            32 <= memory.recv_len,
        ensures
            r.wf(),
            r@ == EndpointState::<U>::created(*config, slot, qpn, send_ring@, *memory),
    {
        let quarter: u64 = config.send_ring_size as u64 / 4;
        let max_resp_reservation: u64 = if config.max_resp_reservation <= quarter {
            config.max_resp_reservation
        } else {
            quarter
        };
        Endpoint {
            local: LocalSide {
                slot,
                qpn,
                send_ring_addr: memory.send_addr,
                send_ring_lkey: memory.send_lkey,
                recv_ring_addr: memory.recv_addr,
                recv_ring_rkey: memory.recv_rkey,
                recv_ring_len: memory.recv_len,
                max_resp_reservation,
            },
            send_ring,
            remote_recv_ring: None,
            send_ring_producer: 0,
            recv_ring_producer: 0,
            last_recv_pos: 0,
            last_notified_recv_pos: 0,
            remote_consumer_pos: 0,
            unsignaled_count: 0,
            pending_calls: PendingCalls::new(),
            flush_start_pos: 0,
            resp_reservation: 0,
            peer_credit_balance: 0,
            meta_pos: 0,
            batch_message_count: 0,
            raw_rdma_posted: 0,
            raw_rdma_done: 0,
            needs_doorbell: false,
            is_dirty: false,
            told: 0,
            granted: 0,
        }
    }

    /// QP number.
    pub fn qpn(&self) -> (r: u32)
        ensures
            r == self@.local.qpn,
    {
        self.local.qpn
    }

    /// The bytes of the send ring.
    pub fn send_ring(&self) -> (r: &[u8])
        ensures
            r@ == self@.ring,
    {
        self.send_ring.as_slice()
    }

    /// What the peer needs to know to connect to this endpoint.
    pub fn local_info(&self, ctx_lid: u16, ctx_port: u8) -> (r: (LocalEndpointInfo, u16, u8))
        ensures
            r.0 == (LocalEndpointInfo {
                qp_number: self@.local.qpn,
                recv_ring_addr: self@.local.recv_ring_addr,
                recv_ring_rkey: self@.local.recv_ring_rkey,
                recv_ring_size: self@.local.recv_ring_len,
                initial_credit: least(
                    self@.local.max_resp_reservation as int,
                    self@.len() / 4,
                ) as u64,
            }),
            r.1 == ctx_lid,
            r.2 == ctx_port,
    {
        let quarter: u64 = self.send_ring.len() as u64 / 4;
        let info = LocalEndpointInfo {
            qp_number: self.local.qpn,
            recv_ring_addr: self.local.recv_ring_addr,
            recv_ring_rkey: self.local.recv_ring_rkey,
            recv_ring_size: self.local.recv_ring_len,
            initial_credit: if self.local.max_resp_reservation <= quarter {
                self.local.max_resp_reservation
            } else {
                quarter
            },
        };
        (info, ctx_lid, ctx_port)
    }

    /// Connects to a peer, without raw reads.
    pub fn connect(&mut self, remote: &RemoteEndpointInfo, local_psn: u32, port: u8) -> (qp: QpConnect)
        requires
            old(self).wf(),
            remote.ring().valid(),
        ensures
            final(self).wf(),
            final(self)@ == old(self)@.linked(remote.ring(), remote.initial_credit),
            qp == remote.transition(local_psn, port, false),
    {
        self.connect_ex(remote, local_psn, port, false)
    }

    /// Connects to a peer. Returns what the queue pair has to do; when that is done, the endpoint
    /// goes on with `connect_done`.
    pub fn connect_ex(
        &mut self,
        remote: &RemoteEndpointInfo,
        local_psn: u32,
        port: u8,
        enable_raw_rdma: bool,
    ) -> (qp: QpConnect)
        requires
            old(self).wf(),
            remote.ring().valid(),
        ensures
            final(self).wf(),
            final(self)@ == old(self)@.linked(remote.ring(), remote.initial_credit),
            qp == remote.transition(local_psn, port, enable_raw_rdma),
    {
        self.remote_recv_ring = Some(
            RemoteRingInfo::new(
                remote.recv_ring_addr,
                remote.recv_ring_rkey,
                remote.recv_ring_size,
            ),
        );
        let quarter: u64 = remote.recv_ring_size / 4;
        self.resp_reservation = if self.local.max_resp_reservation <= quarter {
            self.local.max_resp_reservation
        } else {
            quarter
        };
        self.peer_credit_balance = remote.initial_credit;
        self.told = 0;
        self.granted = 0;
        let depth: u8 = if enable_raw_rdma {
            16
        } else {
            0
        };
        QpConnect {
            qp_number: remote.qp_number,
            packet_sequence_number: remote.packet_sequence_number,
            local_identifier: remote.local_identifier,
            port,
            local_psn,
            max_rd_atomic: depth,
            max_dest_rd_atomic: depth,
            local_write: true,
            remote_write: true,
            remote_read: enable_raw_rdma,
        }
    }

    /// Tells whether no batch was ever opened.
    pub fn is_fresh(&self) -> (r: bool)
        requires
            self.wf(),
        ensures
            r == self@.fresh(),
    {
        proof {
            lemma_span(self@);
        }
        self.send_ring_producer == 0
    }

    /// Opens the first batch, now that the queue pair is connected.
    pub fn connect_done(&mut self)
        requires
            old(self).wf(),
            old(self)@.fresh(),
            old(self)@.remote is Some,
        ensures
            final(self).wf(),
            final(self)@.open_batch(),
            final(self)@ == old(self)@.prepared(),
    {
        proof {
            lemma_pow2_multiple_of_32(self@.len());
            lemma_offset_aligned(0, self@.len());
        }
        self.prepare_next_batch();
    }

    /// The work request that reads `len` bytes of the peer's memory into local memory. When the device
    /// has answered, the endpoint goes on with `rdma_posted`.
    pub fn post_rdma_read(
        &self,
        remote_addr: u64,
        remote_rkey: u32,
        local_addr: u64,
        local_lkey: u32,
        len: u32,
    ) -> (r: RawRdma)
        ensures
            r == raw_rdma(RawKind::Read, remote_addr, remote_rkey, local_addr, local_lkey, len),
            r.kind == RawKind::Read,
            r.remote_addr == remote_addr,
            r.rkey == remote_rkey,
            r.sge.addr == local_addr,
            r.sge.len == len,
            r.sge.lkey == local_lkey,
            r.signaled.qpn == 0xffff_ffff,
    {
        RawRdma {
            kind: RawKind::Read,
            remote_addr,
            rkey: remote_rkey,
            sge: Sge { addr: local_addr, len, lkey: local_lkey },
            signaled: SrqEntry { qpn: RAW_RDMA_SENTINEL_QPN },
        }
    }

    /// The work request that writes `len` bytes of local memory into the peer's memory. When the
    /// device has answered, the endpoint goes on with `rdma_posted`.
    pub fn post_rdma_write(
        &self,
        remote_addr: u64,
        remote_rkey: u32,
        local_addr: u64,
        local_lkey: u32,
        len: u32,
    ) -> (r: RawRdma)
        ensures
            r == raw_rdma(RawKind::Write, remote_addr, remote_rkey, local_addr, local_lkey, len),
            r.kind == RawKind::Write,
            r.remote_addr == remote_addr,
            r.rkey == remote_rkey,
            r.sge.addr == local_addr,
            r.sge.len == len,
            r.sge.lkey == local_lkey,
            r.signaled.qpn == 0xffff_ffff,
    {
        RawRdma {
            kind: RawKind::Write,
            remote_addr,
            rkey: remote_rkey,
            sge: Sge { addr: local_addr, len, lkey: local_lkey },
            signaled: SrqEntry { qpn: RAW_RDMA_SENTINEL_QPN },
        }
    }

    /// Takes note of what the device said to a raw read or write. One that it took is counted until
    /// it is complete.
    pub fn rdma_posted(&mut self, outcome: PostOutcome) -> (r: Result<(), Error>)
        requires
            old(self).wf(),
        ensures
            final(self).wf(),
            match outcome {
                PostOutcome::Posted => r is Ok && final(self)@ == old(self)@.raw_started(),
                _ => r == Err::<(), Error>(Error::Io) && final(self)@ == old(self)@,
            },
    {
        match outcome {
            PostOutcome::Posted => {
                self.raw_rdma_posted = self.raw_rdma_posted.wrapping_add(1);
                Ok(())
            },
            _ => Err(Error::Io),
        }
    }

    /// Takes note that a raw read or write is complete.
    pub fn raw_rdma_completed(&mut self)
        requires
            old(self).wf(),
        ensures
            final(self).wf(),
            final(self)@ == old(self)@.raw_finished(),
    {
        self.raw_rdma_done = self.raw_rdma_done.wrapping_add(1);
    }

    /// Number of raw reads and writes that are not complete.
    pub fn raw_rdma_pending(&self) -> (r: u32)
        ensures
            r == self@.raw_pending(),
    {
        self.raw_rdma_posted.wrapping_sub(self.raw_rdma_done)
    }

    /// Takes note that the endpoint left the queue of endpoints to flush.
    pub fn clear_dirty(&mut self)
        requires
            old(self).wf(),
        ensures
            final(self).wf(),
            final(self)@ == old(self)@.unmarked(),
    {
        self.is_dirty = false;
    }
}

} // verus!
