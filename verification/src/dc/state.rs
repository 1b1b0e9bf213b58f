//! The state of a connection and how each step moves it on.

use vstd::prelude::*;

use crate::arith::monus;
use crate::bytes::{le32_at, le64_at, overwrite};
use crate::dc::info::{RemoteDctInfo, RemoteEndpointInfo, RemoteRingInfo, RingMemory};
use crate::encoding::{batch_header_bytes, WRAP_MESSAGE_COUNT};
use crate::inbound::{Arrival, Inbox, RecvMessage};
use crate::message::{
    lemma_append_message, lemma_messages_end_aligned, lemma_messages_end_grows,
    lemma_padded_bounds, lemma_same_bytes_same_messages, Format, Message,
};
use crate::ring::{
    cycle_rest, is_pow2, lemma_offset_aligned, lemma_offset_step, lemma_offset_wrap,
    lemma_pow2_multiple_of_32,
};
use crate::wqe::Sge;

verus! {

/// Every work request whose number has none of these bits is signaled.
pub const SIGNAL_INTERVAL_MASK: u32 = 0x7;

/// What an endpoint has on this side for its whole life.
#[derive(Debug, Clone, Copy, PartialEq, Eq, Structural)]
pub struct LocalSide {
    /// Number of the endpoint in its context.
    pub endpoint_id: u32,
    /// Address of the send ring.
    pub send_ring_addr: u64,
    /// Local key of the send ring.
    pub send_ring_lkey: u32,
    /// Address of the receive ring.
    pub recv_ring_addr: u64,
    /// Remote key of the receive ring.
    pub recv_ring_rkey: u32,
    /// Bytes in the receive ring.
    pub recv_ring_len: u64,
}

/// An RDMA write with an immediate value, to a connection target.
#[derive(Debug, Clone, Copy, PartialEq, Eq, Structural)]
pub struct WriteImm {
    /// The connection target.
    pub dct: RemoteDctInfo,
    /// Where in the peer's memory the bytes go.
    pub remote_addr: u64,
    /// Key of the peer's memory.
    pub rkey: u32,
    /// The bytes.
    pub sge: Sge,
    /// Immediate value: the number of the remote endpoint.
    pub imm: u32,
    /// The tag that comes back with the completion, where one is asked for.
    pub signaled: Option<u32>,
}

/// The state of a connection.
#[verifier::ext_equal]
pub ghost struct EndpointState<U> {
    /// What is fixed on this side.
    pub local: LocalSide,
    /// The bytes of the send ring.
    pub ring: Seq<u8>,
    /// The peer's receive ring, once it is known.
    pub remote: Option<RemoteRingInfo>,
    /// The peer's connection target, once it is known.
    pub dct: Option<RemoteDctInfo>,
    /// Number of the peer in its context.
    pub remote_id: u32,
    /// Position up to which the send ring is in use.
    pub producer: int,
    /// Position up to which the peer has written the receive ring.
    pub recv_producer: int,
    /// Position up to which the receive ring has been read.
    pub recv_pos: int,
    /// Position up to which the peer has been told that the receive ring was read.
    pub notified: int,
    /// Position up to which the peer has read its receive ring.
    pub consumer: int,
    /// User data of the calls in progress.
    pub pending: Map<usize, U>,
    /// Every key of a call so far was below this number.
    pub slots: nat,
    /// Position up to which the send ring has been handed to the device.
    pub flush_start: int,
    /// Position of the header of the open batch.
    pub meta_pos: int,
    /// Messages in the open batch.
    pub batch_count: int,
    /// The peer has to be told to skip to the next ring cycle.
    pub wrap_pending: bool,
    /// Work requests since the last signaled one.
    pub unsignaled: int,
    /// Signaled work requests that were not counted yet.
    pub newly_signaled: int,
    /// Bytes read that the header in the ring tells the peer of.
    pub told: int,
}

impl<U> EndpointState<U> {
    /// A new endpoint, not yet connected.
    pub open spec fn created(endpoint_id: u32, ring: Seq<u8>, memory: RingMemory) -> Self {
        EndpointState {
            local: LocalSide {
                endpoint_id,
                send_ring_addr: memory.send_addr,
                send_ring_lkey: memory.send_lkey,
                recv_ring_addr: memory.recv_addr,
                recv_ring_rkey: memory.recv_rkey,
                recv_ring_len: memory.recv_len,
            },
            ring,
            remote: None,
            dct: None,
            remote_id: 0,
            producer: 0,
            recv_producer: 0,
            recv_pos: 0,
            notified: 0,
            consumer: 0,
            pending: Map::empty(),
            slots: 0,
            flush_start: 0,
            meta_pos: 0,
            batch_count: 0,
            wrap_pending: false,
            unsignaled: 0,
            newly_signaled: 0,
            told: 0,
        }
    }

    /// Bytes in the send ring.
    pub open spec fn len(self) -> int {
        self.ring.len() as int
    }

    /// Offset of a position in the send ring.
    pub open spec fn offset(self, pos: int) -> int {
        pos % self.len()
    }

    /// Bytes of the peer's receive ring.
    pub open spec fn remote_size(self) -> int {
        self.remote->0.size as int
    }

    /// Bytes in use that the peer has not reported as read.
    pub open spec fn in_flight(self) -> int {
        monus(self.producer, self.consumer)
    }

    /// Bytes read that the peer has not been told of.
    pub open spec fn unreturned(self) -> int {
        self.recv_pos - self.notified
    }

    /// The messages of the open batch.
    pub open spec fn batch(self) -> Seq<Message> {
        Format::Dc.messages(self.ring, self.meta_pos + 32, self.batch_count as nat)
    }

    /// A message of `size` bytes leaves the open batch short of the end of the ring cycle.
    pub open spec fn cycle_room(self, size: int) -> bool {
        self.offset(self.meta_pos) + (self.producer - self.meta_pos) + size < self.len()
    }

    /// The peer's ring has room for `size` bytes beside what is in flight and the room that is left
    /// free for giving credit back.
    pub open spec fn has_space(self, size: int) -> bool {
        size <= monus(self.remote_size(), self.in_flight() + 32)
    }

    /// After a message is put into the open batch.
    pub open spec fn wrote(self, call_id: u32, data: Seq<u8>) -> Self {
        EndpointState {
            ring: overwrite(
                self.ring,
                self.offset(self.producer),
                Format::Dc.header_bytes(call_id, 0, data.len() as int) + data,
            ),
            producer: self.producer + Format::Dc.padded(data.len() as int),
            batch_count: self.batch_count + 1,
            ..self
        }
    }

    /// After the header of the open batch is written: the bytes in use, the bytes read that the
    /// peer has not been told of, and a message count. The peer knows nothing of it before the device
    /// has the batch.
    pub open spec fn headed(self, message_count: u32) -> Self {
        EndpointState {
            ring: overwrite(
                self.ring,
                self.offset(self.flush_start),
                batch_header_bytes(
                    (self.producer - self.flush_start) as u64,
                    self.unreturned() as u64,
                    message_count,
                ),
            ),
            told: self.unreturned(),
            ..self
        }
    }

    /// After the open batch is closed with its message count.
    pub open spec fn filled(self) -> Self {
        self.headed(self.batch_count as u32)
    }

    /// After the place of the open batch, which is empty, is given to a batch that runs to the end
    /// of the ring cycle.
    pub open spec fn wrapped(self) -> Self {
        (EndpointState { producer: self.cycle_end(), ..self }).headed(WRAP_MESSAGE_COUNT)
    }

    /// Position of the next ring cycle.
    pub open spec fn cycle_end(self) -> int {
        self.meta_pos + cycle_rest(self.meta_pos, self.len())
    }

    /// The peer's ring has room for the rest of the ring cycle beside what is in flight and the room
    /// that is left free for giving credit back.
    pub open spec fn wrap_fits(self) -> bool {
        monus(self.cycle_end(), self.consumer) + 32 <= self.remote_size()
    }

    /// The peer's ring has room for what is in use.
    pub open spec fn batch_fits(self) -> bool {
        self.in_flight() <= self.remote_size()
    }

    /// After the device refused a work request: the peer has been told nothing, and what is in use
    /// waits for the next try.
    pub open spec fn refused(self) -> Self {
        EndpointState { told: 0, ..self }
    }

    /// The next work request is signaled.
    pub open spec fn signals(self) -> bool {
        self.unsignaled == 7
    }

    /// The work request that hands everything in use to the device.
    pub open spec fn work_request(self) -> WriteImm {
        let remote = self.remote->0;
        WriteImm {
            dct: self.dct->0,
            remote_addr: (remote.addr + ((self.flush_start as u64) & ((remote.size - 1) as u64)))
                as u64,
            rkey: remote.rkey,
            sge: Sge {
                addr: (self.local.send_ring_addr + self.offset(self.flush_start)) as u64,
                len: ((self.producer - self.flush_start) % 0x1_0000_0000) as u32,
                lkey: self.local.send_ring_lkey,
            },
            imm: self.remote_id,
            signaled: if self.signals() {
                Some(self.local.endpoint_id)
            } else {
                None
            },
        }
    }

    /// After everything in use was handed to the device: the peer is told what the header says.
    pub open spec fn emitted(self) -> Self {
        EndpointState {
            flush_start: self.producer,
            notified: self.notified + self.told,
            told: 0,
            unsignaled: if self.signals() {
                0
            } else {
                self.unsignaled + 1
            },
            newly_signaled: if self.signals() && self.newly_signaled < u32::MAX {
                self.newly_signaled + 1
            } else {
                self.newly_signaled
            },
            ..self
        }
    }

    /// After a batch is opened behind everything in use.
    pub open spec fn prepared(self) -> Self {
        EndpointState {
            meta_pos: self.producer,
            batch_count: 0,
            producer: self.producer + 32,
            ..self
        }
    }

    /// After everything in use was handed to the device and a new batch is open.
    pub open spec fn sent(self) -> Self {
        self.emitted().prepared()
    }

    /// After the peer became known and the first batch is open.
    pub open spec fn linked(self, remote: RemoteEndpointInfo) -> Self {
        (EndpointState {
            remote: Some(remote.ring()),
            dct: Some(remote.dct()),
            remote_id: remote.endpoint_id,
            consumer: 0,
            ..self
        }).prepared()
    }

    /// Offset in the receive ring of the batch to read next.
    pub open spec fn recv_offset(self) -> int {
        self.recv_pos % self.local.recv_ring_len as int
    }

    /// Bytes in the batch to read next, as its header has it.
    pub open spec fn recv_delta(self, recv_ring: Seq<u8>) -> int {
        le64_at(recv_ring, self.recv_offset())
    }

    /// Message count in the header of the batch to read next.
    pub open spec fn recv_count(self, recv_ring: Seq<u8>) -> int {
        le32_at(recv_ring, self.recv_offset() + 16)
    }

    /// The messages of the batch to read next.
    pub open spec fn arrival(self, recv_ring: Seq<u8>) -> Arrival {
        Arrival { format: Format::Dc, ring: recv_ring, pos: self.recv_pos + 32 }
    }

    /// A batch with its header and its messages stands in the receive ring, and the numbers in it
    /// leave all positions in range.
    pub open spec fn can_receive(self, recv_ring: Seq<u8>) -> bool {
        let at = self.recv_offset();
        &&& recv_ring.len() == self.local.recv_ring_len
        &&& at + 32 <= recv_ring.len()
        &&& self.recv_producer + self.recv_delta(recv_ring) <= u64::MAX
        &&& self.consumer + le64_at(recv_ring, at + 8) <= u64::MAX
        &&& if self.recv_count(recv_ring) == WRAP_MESSAGE_COUNT {
            &&& 32 <= self.recv_delta(recv_ring)
            &&& self.recv_pos + self.recv_delta(recv_ring) <= u64::MAX
        } else {
            self.arrival(recv_ring).valid(self.pending, self.recv_count(recv_ring) as nat)
        }
    }

    /// The calls in progress, responses and requests after the batch to read next, where the
    /// requests so far are `requests`.
    pub open spec fn inbox(
        self,
        slot: usize,
        recv_ring: Seq<u8>,
        requests: Seq<RecvMessage>,
    ) -> Inbox<U> {
        let before = Inbox { pending: self.pending, responses: Seq::empty(), requests };
        if self.recv_count(recv_ring) == WRAP_MESSAGE_COUNT {
            before
        } else {
            self.arrival(recv_ring).settle(
                slot,
                self.local.endpoint_id,
                before,
                self.recv_count(recv_ring) as nat,
            )
        }
    }

    /// After the batch to read next: the peer's header moves the flow control on, and the position
    /// goes behind the messages, or as far on as the batch has bytes.
    pub open spec fn received(self, slot: usize, recv_ring: Seq<u8>) -> Self {
        let at = self.recv_offset();
        let count = self.recv_count(recv_ring);
        EndpointState {
            recv_producer: self.recv_producer + self.recv_delta(recv_ring),
            consumer: self.consumer + le64_at(recv_ring, at + 8),
            recv_pos: if count == WRAP_MESSAGE_COUNT {
                self.recv_pos + self.recv_delta(recv_ring)
            } else {
                Format::Dc.messages_end(recv_ring, self.recv_pos + 32, count as nat)
            },
            pending: self.inbox(slot, recv_ring, Seq::empty()).pending,
            ..self
        }
    }

    /// No batch was ever opened.
    pub open spec fn fresh(self) -> bool {
        &&& self.producer == 0
        &&& self.meta_pos == 0
        &&& self.flush_start == 0
        &&& self.batch_count == 0
        &&& !self.wrap_pending
    }

    /// A batch is open: it starts where the device left off, lies inside one ring cycle, and holds
    /// its header and its messages and nothing else. Where its messages number none, it may be
    /// stretched to the end of the cycle by a wrap that waits for the device, and for which the
    /// peer's ring has room.
    pub open spec fn open_batch(self) -> bool {
        &&& self.flush_start == self.meta_pos
        &&& 0 <= self.meta_pos
        &&& self.meta_pos % 32 == 0
        &&& self.offset(self.meta_pos) + (self.producer - self.meta_pos) <= self.len()
        &&& if self.batch_count == 0 {
            ||| self.producer == self.meta_pos + 32
            ||| self.wrap_pending && self.wrap_fits() && self.producer == self.cycle_end()
        } else {
            &&& 0 < self.batch_count
            &&& Format::Dc.messages_end(self.ring, self.meta_pos + 32, self.batch_count as nat)
                == self.producer
        }
    }

    /// Holds of every endpoint at all times.
    pub open spec fn wf(self) -> bool {
        &&& is_pow2(self.len())
        &&& 32 <= self.len()
        &&& is_pow2(self.local.recv_ring_len as int)
        &&& 32 <= self.local.recv_ring_len
        &&& self.local.endpoint_id < u32::MAX
        &&& self.local.send_ring_addr + self.len() <= u64::MAX
        &&& 0 <= self.notified
        &&& 0 <= self.told
        &&& self.notified + self.told <= self.recv_pos <= u64::MAX
        &&& 0 <= self.unsignaled <= 7
        &&& 0 <= self.newly_signaled <= u32::MAX
        &&& 0 <= self.consumer <= u64::MAX
        &&& 0 <= self.producer <= u64::MAX
        &&& 0 <= self.batch_count <= u32::MAX
        &&& match self.remote {
            Some(r) => r.valid() && self.dct is Some && self.open_batch(),
            None => self.dct is None && self.fresh(),
        }
    }

    /// Positions stay in range while a message of `payload_len` bytes is sent.
    pub open spec fn room_to_run(self, payload_len: int) -> bool {
        &&& self.producer + self.len() + Format::Dc.padded(payload_len) + 64 <= u64::MAX
        &&& self.batch_count < u32::MAX
    }
}

/// What is in use and not yet with the device lies inside the send ring.
pub proof fn lemma_span<U>(s: EndpointState<U>)
    requires
        s.wf(),
    ensures
        0 <= s.producer - s.flush_start,
        s.offset(s.flush_start) + (s.producer - s.flush_start) <= s.len(),
        0 <= s.offset(s.flush_start),
        s.remote is Some ==> s.flush_start + 32 <= s.producer,
        s.remote is Some ==> s.offset(s.meta_pos) + 32 <= s.len(),
{
    lemma_pow2_multiple_of_32(s.len());
    lemma_offset_aligned(s.meta_pos, s.len());
    vstd::arithmetic::div_mod::lemma_mod_bound(s.flush_start, s.len());
    if s.remote is Some {
        lemma_messages_end_grows(Format::Dc, s.ring, s.meta_pos + 32, 0, s.batch_count as nat);
    }
}

/// Writing the header of the open batch leaves its messages as they are.
pub proof fn lemma_headed<U>(s: EndpointState<U>, message_count: u32)
    requires
        s.wf(),
        s.remote is Some,
    ensures
        s.headed(message_count).batch() == s.batch(),
        s.headed(message_count).wf(),
        s.offset(s.meta_pos) + 32 <= s.len(),
{
    let t = s.headed(message_count);
    lemma_span(s);
    let header = batch_header_bytes(
        (s.producer - s.flush_start) as u64,
        s.unreturned() as u64,
        message_count,
    );
    assert(header.len() == 32);
    if s.batch_count > 0 {
        let pos = s.meta_pos + 32;
        let n = s.batch_count as nat;
        let end = Format::Dc.messages_end(s.ring, pos, n);
        lemma_messages_end_grows(Format::Dc, s.ring, pos, 0, n);
        lemma_offset_step(s.meta_pos, s.len(), 32);
        assert(s.ring.subrange(s.offset(pos), s.offset(pos) + (end - pos)) =~= t.ring.subrange(
            s.offset(pos),
            s.offset(pos) + (end - pos),
        ));
        lemma_same_bytes_same_messages(Format::Dc, s.ring, pos, t.ring, pos, n);
    }
}

/// A batch that was closed and handed to the device makes place for a new, empty one.
pub proof fn lemma_sent<U>(s: EndpointState<U>)
    requires
        s.wf(),
        s.remote is Some,
        s.producer + 32 <= u64::MAX,
    ensures
        s.producer % 32 == 0,
        s.sent().wf(),
        s.sent().batch() == Seq::<Message>::empty(),
{
    lemma_pow2_multiple_of_32(s.len());
    lemma_offset_aligned(s.meta_pos, s.len());
    if s.batch_count > 0 {
        lemma_messages_end_aligned(Format::Dc, s.ring, s.meta_pos + 32, s.batch_count as nat);
    }
    assert(s.producer % 32 == 0);
    lemma_offset_aligned(s.producer, s.len());
}

/// The place of an empty batch can be given to a batch that runs to the end of the ring cycle.
pub proof fn lemma_wrapped<U>(s: EndpointState<U>)
    requires
        s.wf(),
        s.remote is Some,
        s.batch_count == 0,
        s.wrap_pending,
        s.meta_pos + s.len() <= u64::MAX,
    ensures
        s.wrap_fits() ==> s.wrapped().wf(),
        s.offset(s.meta_pos) + 32 <= s.len(),
        s.meta_pos + 32 <= s.cycle_end() <= s.meta_pos + s.len(),
        s.offset(s.meta_pos) + (s.cycle_end() - s.meta_pos) == s.len(),
{
    lemma_pow2_multiple_of_32(s.len());
    lemma_offset_aligned(s.meta_pos, s.len());
    lemma_offset_wrap(s.meta_pos, s.len());
}

/// A message that fits behind the open batch becomes its last message.
pub proof fn lemma_wrote<U>(s: EndpointState<U>, call_id: u32, data: Seq<u8>)
    requires
        s.wf(),
        s.remote is Some,
        s.batch_count < u32::MAX,
        data.len() <= u32::MAX,
        s.cycle_room(Format::Dc.padded(data.len() as int)),
        s.producer + Format::Dc.padded(data.len() as int) <= u64::MAX,
    ensures
        s.wrote(call_id, data).batch() == s.batch().push(
            Message { call_id, piggyback: 0, payload: data },
        ),
        s.wrote(call_id, data).wf(),
        s.offset(s.producer) + 8 + data.len() <= s.len(),
{
    let pos = s.meta_pos + 32;
    let n = s.batch_count as nat;
    lemma_span(s);
    lemma_padded_bounds(Format::Dc, data.len() as int);
    assert(s.batch_count == 0 ==> s.producer == s.meta_pos + 32);
    lemma_messages_end_grows(Format::Dc, s.ring, pos, 0, n);
    lemma_offset_step(s.meta_pos, s.len(), 32);
    lemma_offset_step(s.meta_pos, s.len(), s.producer - s.meta_pos);
    lemma_append_message(Format::Dc, s.ring, pos, n, call_id, 0, data);
}

} // verus!
