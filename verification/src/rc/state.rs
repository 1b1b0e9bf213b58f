//! The state of a connection and how each step moves it on.

use vstd::prelude::*;

use crate::arith::{least, monus};
use crate::bytes::{le32_at, le64_at, overwrite};
use crate::encoding::{batch_header_bytes, imm_of, WRAP_MESSAGE_COUNT};
use crate::inbound::{Arrival, Inbox, RecvMessage};
use crate::message::{
    lemma_append_message, lemma_messages_end_aligned, lemma_messages_end_grows,
    lemma_padded_bounds, lemma_same_bytes_same_messages, Format, Message,
};
use crate::rc::info::{EndpointConfig, RemoteRingInfo, RingMemory, SrqEntry};
use crate::ring::{
    cycle_rest, is_pow2, lemma_offset_aligned, lemma_offset_step, lemma_offset_wrap,
    lemma_pow2_multiple_of_32,
};
use crate::wqe::Sge;

verus! {

/// How many work requests go out unsignaled before one is signaled.
pub const SIGNAL_INTERVAL: u32 = 64;

/// Most bytes that go inline in a work request without a gather entry.
pub const MAX_INLINE_ONLY: usize = 220;

/// Most bytes that go inline in a work request with a gather entry.
pub const MAX_INLINE_HYBRID: usize = 204;

/// Marks the work requests of raw reads and writes.
pub const RAW_RDMA_SENTINEL_QPN: u32 = 0xffff_ffff;

/// What an endpoint has on this side for its whole life.
#[derive(Debug, Clone, Copy, PartialEq, Eq, Structural)]
pub struct LocalSide {
    /// Where the endpoint stands among the context's endpoints.
    pub slot: usize,
    /// QP number.
    pub qpn: u32,
    /// Address of the send ring.
    pub send_ring_addr: u64,
    /// Local key of the send ring.
    pub send_ring_lkey: u32,
    /// Address of the receive ring.
    pub recv_ring_addr: u64,
    /// Remote key of the receive ring.
    pub recv_ring_rkey: u32,
    /// Bytes in the receive ring.
    pub recv_ring_len: u64,
    /// Most credit in bytes that the peer may hold.
    pub max_resp_reservation: u64,
}

/// An RDMA write with an immediate value. Its bytes are a piece of the send ring, put into the
/// work request, and then what the gather entry names.
#[derive(Debug, Clone, Copy, PartialEq, Eq, Structural)]
pub struct WriteImm {
    /// Where in the peer's memory the bytes go.
    pub remote_addr: u64,
    /// Key of the peer's memory.
    pub rkey: u32,
    /// Immediate value.
    pub imm: u32,
    /// Where in the send ring the inline bytes start.
    pub inline_offset: usize,
    /// Number of inline bytes.
    pub inline_len: usize,
    /// The bytes behind the inline ones.
    pub sge: Option<Sge>,
    /// The tag that comes back with the completion, where one is asked for.
    pub signaled: Option<SrqEntry>,
}

/// Whether a raw work request reads or writes the peer's memory.
#[derive(Debug, Clone, Copy, PartialEq, Eq, Structural)]
pub enum RawKind {
    /// From the peer's memory into local memory.
    Read,
    /// From local memory into the peer's memory.
    Write,
}

/// A raw read or write.
#[derive(Debug, Clone, Copy, PartialEq, Eq, Structural)]
pub struct RawRdma {
    /// Which of the two.
    pub kind: RawKind,
    /// Address in the peer's memory.
    pub remote_addr: u64,
    /// Key of the peer's memory.
    pub rkey: u32,
    /// The local memory.
    pub sge: Sge,
    /// The tag that comes back with the completion.
    pub signaled: SrqEntry,
}

/// A raw read or write, tagged as one.
pub open spec fn raw_rdma(
    kind: RawKind,
    remote_addr: u64,
    rkey: u32,
    addr: u64,
    lkey: u32,
    len: u32,
) -> RawRdma {
    RawRdma {
        kind,
        remote_addr,
        rkey,
        sge: Sge { addr, len, lkey },
        signaled: SrqEntry { qpn: RAW_RDMA_SENTINEL_QPN },
    }
}

/// Credit that a call takes: room for the response message and for one batch header, so that the
/// response fits also where it has to start a new ring cycle.
pub open spec fn allowance_for(response_allowance: int) -> int {
    Format::Rc.padded(response_allowance) + 32
}

/// The state of a connection.
#[verifier::ext_equal]
pub ghost struct EndpointState<U> {
    /// What is fixed on this side.
    pub local: LocalSide,
    /// The bytes of the send ring.
    pub ring: Seq<u8>,
    /// The peer's receive ring, once it is known.
    pub remote: Option<RemoteRingInfo>,
    /// Position up to which the send ring is in use.
    pub producer: int,
    /// Position up to which the peer has written the receive ring.
    pub recv_producer: int,
    /// Position up to which the receive ring has been read.
    pub recv_pos: int,
    /// Position up to which the peer has been told that the receive ring was read.
    pub notified: int,
    /// Position up to which the peer has read its receive ring.
    pub consumer: int,
    /// Work requests since the last signaled one.
    pub unsignaled: int,
    /// User data of the calls in progress.
    pub pending: Map<usize, U>,
    /// Every key of a call so far was below this number.
    pub slots: nat,
    /// Position up to which the send ring has been handed to the device.
    pub flush_start: int,
    /// Credit that the peer holds and requests that are not answered yet, in bytes.
    pub reservation: int,
    /// Credit that this side holds, in bytes.
    pub peer_credit: int,
    /// Position of the header of the open batch.
    pub meta_pos: int,
    /// Messages in the open batch.
    pub batch_count: int,
    /// Raw reads and writes posted.
    pub raw_posted: int,
    /// Raw reads and writes completed.
    pub raw_done: int,
    /// Work requests were posted that the device was not told of.
    pub needs_doorbell: bool,
    /// The endpoint stands in the queue of endpoints to flush.
    pub is_dirty: bool,
    /// Bytes read that the header in the ring tells the peer of.
    pub told: int,
    /// Credit that the header in the ring grants.
    pub granted: int,
}

impl<U> EndpointState<U> {
    /// A new endpoint, not yet connected. Its credit policy never exceeds a quarter of the
    /// configured send ring.
    pub open spec fn created(
        config: EndpointConfig,
        slot: usize,
        qpn: u32,
        ring: Seq<u8>,
        memory: RingMemory,
    ) -> Self {
        EndpointState {
            local: LocalSide {
                slot,
                qpn,
                send_ring_addr: memory.send_addr,
                send_ring_lkey: memory.send_lkey,
                recv_ring_addr: memory.recv_addr,
                recv_ring_rkey: memory.recv_rkey,
                recv_ring_len: memory.recv_len,
                max_resp_reservation: least(
                    config.max_resp_reservation as int,
                    config.send_ring_size as int / 4,
                ) as u64,
            },
            ring,
            remote: None,
            producer: 0,
            recv_producer: 0,
            recv_pos: 0,
            notified: 0,
            consumer: 0,
            unsignaled: 0,
            pending: Map::empty(),
            slots: 0,
            flush_start: 0,
            reservation: 0,
            peer_credit: 0,
            meta_pos: 0,
            batch_count: 0,
            raw_posted: 0,
            raw_done: 0,
            needs_doorbell: false,
            is_dirty: false,
            told: 0,
            granted: 0,
        }
    }

    /// Bytes in the send ring.
    pub open spec fn len(self) -> int {
        self.ring.len() as int
    }

    /// Offset of a position in the send ring.
    pub open spec fn offset(self, pos: int) -> int {
        pos % self.len()
    }

    /// Bytes of the peer's receive ring.
    pub open spec fn remote_size(self) -> int {
        self.remote->0.size as int
    }

    /// Bytes in use that the peer has not reported as read.
    pub open spec fn in_flight(self) -> int {
        monus(self.producer, self.consumer)
    }

    /// The messages of the open batch.
    pub open spec fn batch(self) -> Seq<Message> {
        Format::Rc.messages(self.ring, self.meta_pos + 32, self.batch_count as nat)
    }

    /// Credit to grant next: as much as the policy and the peer's ring leave room for, where a byte
    /// of credit counts twice, in whole blocks.
    pub open spec fn grant(self) -> int {
        match self.remote {
            None => 0,
            Some(r) => {
                let by_ring = monus(monus(r.size as int, self.in_flight()) / 2, self.reservation);
                let by_policy = monus(self.local.max_resp_reservation as int, self.reservation);
                least(by_ring, by_policy) / 32 * 32
            },
        }
    }

    /// After the header of the open batch is written: the bytes read that the peer has not been told
    /// of, the credit to grant, and a message count. The peer has neither before the device has the
    /// batch.
    pub open spec fn headed(self, message_count: u32) -> Self {
        EndpointState {
            ring: overwrite(
                self.ring,
                self.offset(self.meta_pos),
                batch_header_bytes(
                    (self.recv_pos - self.notified) as u64,
                    self.grant() as u64,
                    message_count,
                ),
            ),
            told: self.recv_pos - self.notified,
            granted: self.grant(),
            ..self
        }
    }

    /// After the open batch is closed with its message count.
    pub open spec fn filled(self) -> Self {
        self.headed(self.batch_count as u32)
    }

    /// After the place of the open batch, which is empty, is given to a batch that runs to the end
    /// of the ring cycle. The bytes up to there count as in flight.
    pub open spec fn wrapped(self) -> Self {
        (EndpointState { producer: self.cycle_end(), ..self }).headed(WRAP_MESSAGE_COUNT)
    }

    /// Position of the next ring cycle.
    pub open spec fn cycle_end(self) -> int {
        self.meta_pos + cycle_rest(self.meta_pos, self.len())
    }

    /// The peer's ring has room for the rest of the ring cycle beside what is in flight and
    /// `reserved` bytes.
    pub open spec fn wrap_fits(self, reserved: int) -> bool {
        monus(self.cycle_end(), self.consumer) + reserved <= self.remote_size()
    }

    /// After the device refused a work request: the peer has been told nothing and granted nothing,
    /// and what is in use waits for the next try.
    pub open spec fn refused(self) -> Self {
        EndpointState { told: 0, granted: 0, ..self }
    }

    /// After a batch is opened behind everything in use.
    pub open spec fn prepared(self) -> Self {
        EndpointState {
            meta_pos: self.producer,
            batch_count: 0,
            producer: self.producer + 32,
            ..self
        }
    }

    /// After everything in use was handed to the device: the peer is told what the header says.
    pub open spec fn emitted(self) -> Self {
        EndpointState {
            flush_start: self.producer,
            notified: self.notified + self.told,
            reservation: self.reservation + self.granted,
            told: 0,
            granted: 0,
            unsignaled: if self.unsignaled >= 64 {
                0
            } else {
                self.unsignaled + 1
            },
            needs_doorbell: true,
            ..self
        }
    }

    /// After everything in use was handed to the device and a new batch is open.
    pub open spec fn sent(self) -> Self {
        self.emitted().prepared()
    }

    /// After the device was told of all work requests.
    pub open spec fn rung(self) -> Self {
        EndpointState { needs_doorbell: false, ..self }
    }

    /// The work request that hands everything in use to the device.
    pub open spec fn work_request(self) -> WriteImm {
        let remote = self.remote->0;
        let delta = self.producer - self.flush_start;
        let offset = self.offset(self.flush_start);
        WriteImm {
            remote_addr: (remote.addr + ((self.flush_start as u64) & ((remote.size - 1) as u64)))
                as u64,
            rkey: remote.rkey,
            imm: imm_of(delta),
            inline_offset: offset as usize,
            inline_len: if delta <= 220 {
                delta as usize
            } else {
                204
            },
            sge: if delta <= 220 {
                None
            } else {
                Some(
                    Sge {
                        addr: (self.local.send_ring_addr + offset + 204) as u64,
                        len: ((delta - 204) % 0x1_0000_0000) as u32,
                        lkey: self.local.send_ring_lkey,
                    },
                )
            },
            signaled: if self.unsignaled >= 64 {
                Some(SrqEntry { qpn: self.local.qpn })
            } else {
                None
            },
        }
    }

    /// A message of `size` bytes would take the open batch to the end of the ring cycle or past it.
    pub open spec fn wrap_due(self, size: int) -> bool {
        self.offset(self.meta_pos) + (self.producer - self.meta_pos) + size >= self.len()
    }

    /// After a message is put into the open batch.
    pub open spec fn wrote(self, call_id: u32, piggyback: u64, data: Seq<u8>) -> Self {
        EndpointState {
            ring: overwrite(
                self.ring,
                self.offset(self.producer),
                Format::Rc.header_bytes(call_id, piggyback, data.len() as int) + data,
            ),
            producer: self.producer + Format::Rc.padded(data.len() as int),
            batch_count: self.batch_count + 1,
            ..self
        }
    }

    /// After the endpoint is marked for the next flush.
    pub open spec fn marked(self) -> Self {
        EndpointState { is_dirty: true, ..self }
    }

    /// After the endpoint left the queue of endpoints to flush.
    pub open spec fn unmarked(self) -> Self {
        EndpointState { is_dirty: false, ..self }
    }

    /// After a raw read or write was handed out.
    pub open spec fn raw_started(self) -> Self {
        EndpointState { raw_posted: (self.raw_posted + 1) % 0x1_0000_0000, ..self }
    }

    /// After a raw read or write was reported complete.
    pub open spec fn raw_finished(self) -> Self {
        EndpointState { raw_done: (self.raw_done + 1) % 0x1_0000_0000, ..self }
    }

    /// Raw reads and writes that are not complete.
    pub open spec fn raw_pending(self) -> int {
        (self.raw_posted - self.raw_done) % 0x1_0000_0000
    }

    /// The peer's ring has room for `size` bytes beside what is in flight and twice the reservation.
    pub open spec fn has_space(self, size: int) -> bool {
        size + 2 * self.reservation <= monus(self.remote_size(), self.in_flight())
    }

    /// Offset in the receive ring of the batch to read next.
    pub open spec fn recv_offset(self) -> int {
        self.recv_pos % self.local.recv_ring_len as int
    }

    /// Message count in the header of the batch to read next.
    pub open spec fn recv_count(self, recv_ring: Seq<u8>) -> int {
        le32_at(recv_ring, self.recv_offset() + 16)
    }

    /// The messages of the batch to read next.
    pub open spec fn arrival(self, recv_ring: Seq<u8>) -> Arrival {
        Arrival { format: Format::Rc, ring: recv_ring, pos: self.recv_pos + 32 }
    }

    /// A batch with its header and its messages stands in the receive ring, and the numbers in it
    /// leave all positions in range.
    pub open spec fn can_receive(self, recv_ring: Seq<u8>, imm: u32) -> bool {
        let at = self.recv_offset();
        &&& recv_ring.len() == self.local.recv_ring_len
        &&& at + 32 <= recv_ring.len()
        &&& self.recv_producer + imm * 32 <= u64::MAX
        &&& self.consumer + le64_at(recv_ring, at) <= u64::MAX
        &&& self.peer_credit + le64_at(recv_ring, at + 8) <= u64::MAX
        &&& if self.recv_count(recv_ring) == WRAP_MESSAGE_COUNT {
            &&& 1 <= imm
            &&& self.recv_pos + imm * 32 <= u64::MAX
        } else {
            self.arrival(recv_ring).valid(self.pending, self.recv_count(recv_ring) as nat)
        }
    }

    /// The calls in progress, responses and requests after the batch to read next, where the
    /// requests so far are `requests`.
    pub open spec fn inbox(self, recv_ring: Seq<u8>, requests: Seq<RecvMessage>) -> Inbox<U> {
        let before = Inbox { pending: self.pending, responses: Seq::empty(), requests };
        if self.recv_count(recv_ring) == WRAP_MESSAGE_COUNT {
            before
        } else {
            self.arrival(recv_ring).settle(
                self.local.slot,
                self.local.qpn,
                before,
                self.recv_count(recv_ring) as nat,
            )
        }
    }

    /// After the batch to read next: the peer's header moves the flow control on, and the position
    /// goes behind the messages. Where the batch is a wrap, it goes to the peer's next ring cycle,
    /// which is as far on as the completion announced.
    pub open spec fn received(self, recv_ring: Seq<u8>, imm: u32) -> Self {
        let at = self.recv_offset();
        let count = self.recv_count(recv_ring);
        EndpointState {
            recv_producer: self.recv_producer + imm * 32,
            consumer: self.consumer + le64_at(recv_ring, at),
            peer_credit: self.peer_credit + le64_at(recv_ring, at + 8),
            recv_pos: if count == WRAP_MESSAGE_COUNT {
                self.recv_pos + imm * 32
            } else {
                Format::Rc.messages_end(recv_ring, self.recv_pos + 32, count as nat)
            },
            pending: self.inbox(recv_ring, Seq::empty()).pending,
            ..self
        }
    }

    /// After the peer became known: this side grants `reservation`, the peer grants `credit`.
    pub open spec fn linked(self, remote: RemoteRingInfo, credit: u64) -> Self {
        EndpointState {
            remote: Some(remote),
            reservation: least(
                self.local.max_resp_reservation as int,
                remote.size as int / 4,
            ),
            peer_credit: credit as int,
            told: 0,
            granted: 0,
            ..self
        }
    }

    /// No batch was ever opened.
    pub open spec fn fresh(self) -> bool {
        &&& self.producer == 0
        &&& self.meta_pos == 0
        &&& self.flush_start == 0
        &&& self.batch_count == 0
    }

    /// A batch is open: it starts where the device left off, lies inside one ring cycle, and holds
    /// its header and its messages and nothing else. Where its messages number none, it may be
    /// stretched to the end of the cycle by a wrap that waits for the device.
    pub open spec fn open_batch(self) -> bool {
        &&& self.remote is Some
        &&& self.flush_start == self.meta_pos
        &&& 0 <= self.meta_pos
        &&& self.meta_pos % 32 == 0
        &&& self.offset(self.meta_pos) + (self.producer - self.meta_pos) <= self.len()
        &&& if self.batch_count == 0 {
            ||| self.producer == self.meta_pos + 32
            ||| self.producer == self.meta_pos + cycle_rest(self.meta_pos, self.len())
        } else {
            &&& 0 < self.batch_count
            &&& Format::Rc.messages_end(self.ring, self.meta_pos + 32, self.batch_count as nat)
                == self.producer
        }
    }

    /// Holds of every endpoint at all times.
    pub open spec fn wf(self) -> bool {
        &&& is_pow2(self.len())
        &&& 32 <= self.len()
        &&& is_pow2(self.local.recv_ring_len as int)
        &&& 32 <= self.local.recv_ring_len
        &&& self.local.send_ring_addr + self.len() <= u64::MAX
        &&& 0 <= self.reservation
        &&& 0 <= self.granted
        &&& self.reservation + self.granted <= self.local.max_resp_reservation <= u64::MAX / 4
        &&& 0 <= self.notified
        &&& 0 <= self.told
        &&& self.notified + self.told <= self.recv_pos <= u64::MAX
        &&& 0 <= self.unsignaled <= 64
        &&& 0 <= self.consumer <= u64::MAX
        &&& 0 <= self.producer <= u64::MAX
        &&& 0 <= self.batch_count <= u32::MAX
        &&& self.remote matches Some(r) ==> r.valid()
        &&& self.fresh() || self.open_batch()
        &&& self.is_dirty ==> self.open_batch()
    }

    /// The endpoint is connected or was never connected: the last connect did not fail.
    pub open spec fn settled(self) -> bool {
        self.remote is None || self.open_batch()
    }

    /// A request of `size` bytes fits at the start of a ring cycle, or the peer's ring is too small
    /// for it to be taken there.
    pub open spec fn holds(self, size: int) -> bool {
        ||| 32 + size <= self.len()
        ||| self.remote_size() < size
        ||| self.remote_size() < 32 + size && self.consumer <= self.meta_pos
    }

    /// Positions stay in range while a message of `payload_len` bytes is sent.
    pub open spec fn room_to_run(self, payload_len: int) -> bool {
        &&& self.producer + self.len() + Format::Rc.padded(payload_len) + 128 <= u64::MAX
        &&& self.batch_count < u32::MAX
    }
}

/// Writing the header of the open batch leaves its messages as they are.
pub proof fn lemma_headed<U>(s: EndpointState<U>, message_count: u32)
    requires
        s.wf(),
        s.open_batch(),
    ensures
        s.headed(message_count).batch() == s.batch(),
        s.headed(message_count).wf(),
        s.headed(message_count).open_batch(),
        0 <= s.grant(),
        s.reservation + s.grant() <= s.local.max_resp_reservation,
        s.offset(s.meta_pos) + 32 <= s.len(),
{
    let t = s.headed(message_count);
    lemma_pow2_multiple_of_32(s.len());
    lemma_offset_aligned(s.meta_pos, s.len());
    let header = batch_header_bytes(
        (s.recv_pos - s.notified) as u64,
        s.grant() as u64,
        message_count,
    );
    assert(header.len() == 32);
    if s.batch_count > 0 {
        let pos = s.meta_pos + 32;
        let n = s.batch_count as nat;
        let end = Format::Rc.messages_end(s.ring, pos, n);
        lemma_messages_end_grows(Format::Rc, s.ring, pos, 0, n);
        lemma_offset_step(s.meta_pos, s.len(), 32);
        assert(s.ring.subrange(s.offset(pos), s.offset(pos) + (end - pos)) =~= t.ring.subrange(
            s.offset(pos),
            s.offset(pos) + (end - pos),
        ));
        lemma_same_bytes_same_messages(Format::Rc, s.ring, pos, t.ring, pos, n);
    }
}

/// A batch that was closed and handed to the device makes place for a new, empty one.
pub proof fn lemma_sent<U>(s: EndpointState<U>)
    requires
        s.wf(),
        s.open_batch(),
        s.producer + 32 <= u64::MAX,
    ensures
        s.producer % 32 == 0,
        s.meta_pos + 32 <= s.producer,
        s.sent().wf(),
        s.sent().open_batch(),
        s.sent().batch() == Seq::<Message>::empty(),
{
    lemma_pow2_multiple_of_32(s.len());
    lemma_offset_aligned(s.meta_pos, s.len());
    if s.batch_count > 0 {
        lemma_messages_end_aligned(Format::Rc, s.ring, s.meta_pos + 32, s.batch_count as nat);
        lemma_messages_end_grows(Format::Rc, s.ring, s.meta_pos + 32, 0, s.batch_count as nat);
    }
    assert(s.producer % 32 == 0);
    lemma_offset_aligned(s.producer, s.len());
}

/// The place of an empty batch can be given to a batch that runs to the end of the ring cycle.
pub proof fn lemma_wrapped<U>(s: EndpointState<U>)
    requires
        s.wf(),
        s.open_batch(),
        s.batch_count == 0,
        s.meta_pos + s.len() <= u64::MAX,
    ensures
        s.wrapped().wf(),
        s.wrapped().open_batch(),
        s.offset(s.meta_pos) + 32 <= s.len(),
        s.wrapped().producer <= s.meta_pos + s.len(),
{
    lemma_pow2_multiple_of_32(s.len());
    lemma_offset_aligned(s.meta_pos, s.len());
    lemma_offset_wrap(s.meta_pos, s.len());
}

/// A message that fits behind the open batch becomes its last message.
pub proof fn lemma_wrote<U>(s: EndpointState<U>, call_id: u32, piggyback: u64, data: Seq<u8>)
    requires
        s.wf(),
        s.open_batch(),
        s.batch_count == 0 ==> s.producer == s.meta_pos + 32,
        s.batch_count < u32::MAX,
        data.len() <= u32::MAX,
        s.offset(s.meta_pos) + (s.producer - s.meta_pos) + Format::Rc.padded(data.len() as int)
            <= s.len(),
        s.producer + Format::Rc.padded(data.len() as int) <= u64::MAX,
    ensures
        s.wrote(call_id, piggyback, data).batch() == s.batch().push(
            Message { call_id, piggyback, payload: data },
        ),
        s.wrote(call_id, piggyback, data).wf(),
        s.wrote(call_id, piggyback, data).open_batch(),
        s.offset(s.producer) + 16 + data.len() <= s.len(),
{
    let pos = s.meta_pos + 32;
    let n = s.batch_count as nat;
    lemma_padded_bounds(Format::Rc, data.len() as int);
    lemma_messages_end_grows(Format::Rc, s.ring, pos, 0, n);
    lemma_offset_step(s.meta_pos, s.len(), 32);
    lemma_offset_step(s.meta_pos, s.len(), s.producer - s.meta_pos);
    lemma_append_message(Format::Rc, s.ring, pos, n, call_id, piggyback, data);
}

} // verus!
