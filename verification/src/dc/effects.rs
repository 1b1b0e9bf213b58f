//! What each operation of an endpoint does, field by field and byte by byte.

use vstd::prelude::*;

use crate::bytes::{le32_at, le32_bytes, le64_at, lemma_le32_round_trip};
use crate::dc::info::{RemoteDctInfo, RemoteEndpointInfo, RemoteRingInfo, RingMemory};
use crate::dc::state::{lemma_span, EndpointState, LocalSide};
use crate::dc::step::{call_id_of, EmitStage, EmitStep};
use crate::encoding::{law_batch_header_round_trip, law_topmost_bit_tells_response, respond_to};
use crate::error::{CallError, Error, PostOutcome};
use crate::inbound::{Arrival, Inbox, RecvMessage};
use crate::message::Format;
use crate::ring::{is_pow2, lemma_mask_is_mod, lemma_offset_step};

verus! {

/// Bytes that a message with a payload of `len` bytes takes: its header of eight bytes and the payload,
/// up to the next multiple of 32.
pub open spec fn message_bytes(len: int) -> int {
    (len + 39) / 32 * 32
}

/// Bytes that were sent or are to be sent, up to a position, and that the peer has not reported as read.
pub open spec fn unread<U>(s: EndpointState<U>, up_to: int) -> int {
    if up_to > s.consumer {
        up_to - s.consumer
    } else {
        0
    }
}

/// The open batch with `size` more bytes stays short of the end of its ring cycle.
pub open spec fn stays_in_cycle<U>(s: EndpointState<U>, size: int) -> bool {
    s.meta_pos % s.ring.len() as int + (s.producer - s.meta_pos) + size < s.ring.len()
}

/// The peer's ring has room for `size` bytes beside all that it has not reported as read and one batch
/// header.
pub open spec fn peer_has_room<U>(s: EndpointState<U>, size: int) -> bool {
    size + 32 + unread(s, s.producer) <= s.remote->0.size
}

/// The position at which the next ring cycle starts.
pub open spec fn next_cycle<U>(s: EndpointState<U>) -> int {
    s.meta_pos + s.ring.len() - s.meta_pos % s.ring.len() as int
}

/// The peer's ring has room for a wrap and for one batch header behind it.
pub open spec fn wrap_has_room<U>(s: EndpointState<U>) -> bool {
    unread(s, next_cycle(s)) + 32 <= s.remote->0.size
}

/// Two rings differ nowhere but in the bytes from `from` to `to`.
pub open spec fn same_but(a: Seq<u8>, b: Seq<u8>, from: int, to: int) -> bool {
    &&& a.len() == b.len()
    &&& forall|i: int|
        0 <= i < a.len() && !(from <= i < to) ==> (#[trigger] a[i]) == b[i]
}

/// A message stands behind the open batch of `pre`, with all of its bytes.
pub open spec fn message_stands<U>(
    pre: EndpointState<U>,
    ring: Seq<u8>,
    call_id: int,
    data: Seq<u8>,
) -> bool {
    let at = pre.producer % pre.ring.len() as int;
    &&& same_but(ring, pre.ring, at, at + 8 + data.len())
    &&& le32_at(ring, at) == call_id
    &&& le32_at(ring, at + 4) == data.len()
    &&& ring.subrange(at + 8, at + 8 + data.len()) == data
}

/// A message that is put into the open batch stands behind it with all of its bytes: the call
/// identifier, the length and the payload. It counts as one message more, and nothing else changes.
#[verifier::rlimit(50)]
pub proof fn law_message_is_written<U>(s: EndpointState<U>, call_id: u32, data: Seq<u8>)
    requires
        0 < s.ring.len(),
        0 <= s.producer,
        data.len() <= u32::MAX,
        s.producer % s.ring.len() as int + 8 + data.len() <= s.ring.len(),
    ensures
        ({
            let t = s.wrote(call_id, data);
            &&& t == EndpointState {
                ring: t.ring,
                producer: s.producer + message_bytes(data.len() as int),
                batch_count: s.batch_count + 1,
                ..s
            }
            &&& message_stands(s, t.ring, call_id as int, data)
        }),
{
    let at = s.producer % s.ring.len() as int;
    let t = s.wrote(call_id, data);
    let header = Format::Dc.header_bytes(call_id, 0, data.len() as int);
    vstd::arithmetic::div_mod::lemma_mod_bound(s.producer, s.ring.len() as int);
    assert(header.len() == 8);
    assert(t.ring.subrange(at, at + 4) =~= le32_bytes(call_id as int));
    lemma_le32_round_trip(t.ring, at, call_id);
    assert(t.ring.subrange(at + 4, at + 8) =~= le32_bytes(data.len() as int));
    lemma_le32_round_trip(t.ring, at + 4, data.len() as u32);
    assert(t.ring.subrange(at + 8, at + 8 + data.len()) =~= data);
}

/// A batch header stands in a ring: the bytes of the batch, the bytes read that the peer has not been
/// told of, and the message count. Nothing else in the ring changes.
pub open spec fn header_stands<U>(
    pre: EndpointState<U>,
    ring: Seq<u8>,
    delta: int,
    message_count: int,
) -> bool {
    let at = pre.flush_start % pre.ring.len() as int;
    &&& same_but(ring, pre.ring, at, at + 32)
    &&& le64_at(ring, at) == delta
    &&& le64_at(ring, at + 8) == pre.recv_pos - pre.notified
    &&& le32_at(ring, at + 16) == message_count
}

/// The header of a batch lies where the device left off and says how long the batch is, what was read,
/// and how many messages there are. That of a wrap lies there too; the bytes in use then run to the
/// start of the next ring cycle.
#[verifier::rlimit(50)]
pub proof fn law_header_is_written<U>(s: EndpointState<U>, message_count: u32)
    requires
        s.wf(),
        s.remote is Some,
        s.meta_pos + s.ring.len() <= u64::MAX,
    ensures
        ({
            let t = s.headed(message_count);
            &&& t == EndpointState { ring: t.ring, told: s.recv_pos - s.notified, ..s }
            &&& header_stands(s, t.ring, s.producer - s.flush_start, message_count as int)
        }),
        s.batch_count == message_count ==> s.filled() == s.headed(message_count),
        ({
            let t = s.wrapped();
            &&& t == EndpointState {
                ring: t.ring,
                producer: next_cycle(s),
                told: s.recv_pos - s.notified,
                ..s
            }
            &&& header_stands(s, t.ring, next_cycle(s) - s.flush_start, 0xffff_ffff)
        }),
{
    let at = s.flush_start % s.ring.len() as int;
    lemma_span(s);
    law_batch_header_round_trip(
        s.ring,
        at,
        (s.producer - s.flush_start) as u64,
        (s.recv_pos - s.notified) as u64,
        message_count,
    );
    law_batch_header_round_trip(
        s.ring,
        at,
        (next_cycle(s) - s.flush_start) as u64,
        (s.recv_pos - s.notified) as u64,
        0xffff_ffff,
    );
}

/// What the device's answer changes. Where it took a work request, all bytes in use are with it, the peer
/// counts as told what the header says, an empty batch is open behind, and every eighth work request
/// counts as signaled. Where it refused, the peer counts as told nothing, and everything else stays.
pub proof fn law_device_answer<U>(s: EndpointState<U>)
    requires
        0 <= s.unsignaled <= 7,
        0 <= s.newly_signaled <= u32::MAX,
    ensures
        ({
            let t = s.sent();
            &&& t == EndpointState {
                flush_start: s.producer,
                meta_pos: s.producer,
                producer: s.producer + 32,
                batch_count: 0,
                notified: s.notified + s.told,
                told: 0,
                unsignaled: t.unsignaled,
                newly_signaled: t.newly_signaled,
                ..s
            }
            &&& s.unsignaled < 7 ==> t.unsignaled == s.unsignaled + 1 && t.newly_signaled
                == s.newly_signaled
            &&& s.unsignaled == 7 ==> t.unsignaled == 0 && (t.newly_signaled == s.newly_signaled + 1
                || s.newly_signaled == u32::MAX == t.newly_signaled)
        }),
        s.refused() == (EndpointState { told: 0, ..s }),
        s.counted() == (EndpointState { newly_signaled: 0, ..s }),
        s.wrap_wanted() == (EndpointState { wrap_pending: true, ..s }),
{
}

/// A work request writes the bytes in use, all of them and no others, from the send ring under its key,
/// to the place in the peer's ring that their position names, with the peer's key, over the peer's
/// connection target. It names the peer's endpoint, and every eighth asks for a completion, which is
/// tagged with the number of this endpoint.
pub proof fn law_work_request_is_right<U>(s: EndpointState<U>)
    requires
        s.wf(),
        s.remote is Some,
        is_pow2(s.remote->0.size as int),
    ensures
        ({
            let w = s.work_request();
            let delta = s.producer - s.flush_start;
            &&& w.dct == s.dct->0
            &&& w.remote_addr == s.remote->0.addr + s.flush_start % (s.remote->0.size as int)
            &&& w.rkey == s.remote->0.rkey
            &&& w.sge.addr == s.local.send_ring_addr + s.flush_start % s.ring.len() as int
            &&& w.sge.len as int == delta % 0x1_0000_0000
            &&& w.sge.lkey == s.local.send_ring_lkey
            &&& w.imm == s.remote_id
            &&& w.signaled == (if s.unsignaled < 7 {
                None
            } else {
                Some(s.local.endpoint_id)
            })
        }),
{
    lemma_span(s);
    lemma_mask_is_mod(s.flush_start as u64, s.remote->0.size);
    vstd::arithmetic::div_mod::lemma_mod_bound(s.flush_start, s.remote->0.size as int);
}

/// Connecting takes over the peer's ring, with its address, key and size, its connection target, with its
/// number, key and local identifier, and the number of its endpoint, and opens an empty batch. Work
/// requests from then on go there, and nowhere else, and name the memory on this side by its own key.
pub proof fn law_connected<U>(s: EndpointState<U>, remote: RemoteEndpointInfo)
    ensures
        ({
            let t = s.linked(remote);
            &&& t == EndpointState {
                remote: Some(
                    RemoteRingInfo {
                        addr: remote.recv_ring_addr,
                        rkey: remote.recv_ring_rkey,
                        size: remote.recv_ring_size,
                    },
                ),
                dct: Some(
                    RemoteDctInfo {
                        dctn: remote.dct_number,
                        dc_key: remote.dc_key,
                        dlid: remote.local_identifier,
                    },
                ),
                remote_id: remote.endpoint_id,
                consumer: 0,
                meta_pos: s.producer,
                producer: s.producer + 32,
                batch_count: 0,
                ..s
            }
            &&& t.work_request().rkey == remote.recv_ring_rkey
            &&& t.work_request().dct.dctn == remote.dct_number
            &&& t.work_request().dct.dc_key == remote.dc_key
            &&& t.work_request().dct.dlid == remote.local_identifier
            &&& t.work_request().imm == remote.endpoint_id
            &&& t.work_request().sge.lkey == s.local.send_ring_lkey
        }),
        remote.ring().valid() <==> 0 < remote.recv_ring_size && remote.recv_ring_addr
            + remote.recv_ring_size <= u64::MAX,
{
}

/// A new endpoint holds what it was made from, and has sent, received and counted nothing.
pub proof fn law_new_endpoint<U>(endpoint_id: u32, ring: Seq<u8>, memory: RingMemory)
    ensures
        ({
            let s = EndpointState::<U>::created(endpoint_id, ring, memory);
            &&& s.local == LocalSide {
                endpoint_id,
                send_ring_addr: memory.send_addr,
                send_ring_lkey: memory.send_lkey,
                recv_ring_addr: memory.recv_addr,
                recv_ring_rkey: memory.recv_rkey,
                recv_ring_len: memory.recv_len,
            }
            &&& s.ring == ring
            &&& s.remote is None && s.dct is None && s.remote_id == 0
            &&& s.producer == 0 && s.recv_producer == 0 && s.recv_pos == 0 && s.notified == 0
            &&& s.consumer == 0 && s.flush_start == 0 && s.meta_pos == 0 && s.batch_count == 0
            &&& s.unsignaled == 0 && s.newly_signaled == 0 && s.told == 0
            &&& !s.wrap_pending
            &&& s.pending == Map::<usize, U>::empty() && s.slots == 0
        }),
{
}

/// The call is taken under a key that no call in progress has: its user data is kept under the key, and
/// its request stands behind the open batch, with the key as the call identifier. Nothing else changes.
pub open spec fn call_taken<U>(
    pre: EndpointState<U>,
    data: Seq<u8>,
    user_data: U,
    key: usize,
    post: EndpointState<U>,
    r: Result<u32, CallError<U>>,
) -> bool {
    &&& !pre.pending.contains_key(key)
    &&& r == Ok::<u32, CallError<U>>((key as int % 0x1_0000_0000) as u32)
    &&& post == EndpointState {
        ring: post.ring,
        producer: pre.producer + message_bytes(data.len() as int),
        batch_count: pre.batch_count + 1,
        pending: pre.pending.insert(key, user_data),
        slots: post.slots,
        ..pre
    }
    &&& message_stands(pre, post.ring, key as int % 0x1_0000_0000, data)
    &&& pre.slots <= post.slots <= pre.slots + 1
    &&& key < post.slots
}

/// Where a message that stays in the cycle goes, its bytes lie in the ring.
proof fn lemma_room_at_producer<U>(s: EndpointState<U>, size: int)
    requires
        s.wf(),
        s.remote is Some,
        stays_in_cycle(s, size),
        0 <= size,
    ensures
        s.producer % s.ring.len() as int + size < s.ring.len(),
{
    lemma_span(s);
    lemma_offset_step(s.meta_pos, s.ring.len() as int, s.producer - s.meta_pos);
}

/// What a call comes to, for every endpoint and every request. An endpoint that is not connected refuses
/// it. A request that does not stay in the ring cycle of the open batch is refused, and a wrap is asked
/// for. Any other is taken if and only if the peer's ring has room for it, however many messages are
/// open.
#[verifier::rlimit(50)]
pub proof fn law_call_comes_to<U>(
    pre: EndpointState<U>,
    data: Seq<u8>,
    user_data: U,
    post: EndpointState<U>,
    r: Result<u32, CallError<U>>,
)
    requires
        pre.wf(),
        data.len() <= u32::MAX,
        pre.calls(data, user_data, post, r),
    ensures
        ({
            let size = message_bytes(data.len() as int);
            if pre.remote is None {
                &&& post == pre
                &&& r == Err::<u32, CallError<U>>(CallError::Other(Error::RemoteConsumerUnknown))
            } else if !stays_in_cycle(pre, size) {
                &&& post == EndpointState { wrap_pending: true, ..pre }
                &&& r == Err::<u32, CallError<U>>(CallError::RingFull(user_data))
            } else if !peer_has_room(pre, size) {
                &&& post == pre
                &&& r == Err::<u32, CallError<U>>(CallError::RingFull(user_data))
            } else {
                exists|key: usize| #[trigger] call_taken(pre, data, user_data, key, post, r)
            }
        }),
{
    let size = message_bytes(data.len() as int);
    assert(Format::Dc.padded(data.len() as int) == size);
    if pre.remote is Some && stays_in_cycle(pre, size) && peer_has_room(pre, size) {
        assert(pre.has_space(size));
        let key = choose|key: usize| #[trigger] pre.accepts(data, user_data, key, post, r);
        lemma_room_at_producer(pre, size);
        law_message_is_written(pre, call_id_of(key), data);
        assert(call_taken(pre, data, user_data, key, post, r));
    }
}

/// What a reply comes to, for every endpoint and every response. It is taken under the same conditions as
/// a call, and then stands behind the open batch with all of its bytes, under the identifier of its
/// request with the topmost bit set.
#[verifier::rlimit(50)]
pub proof fn law_reply_comes_to<U>(pre: EndpointState<U>, call_id: u32, data: Seq<u8>)
    requires
        pre.wf(),
        data.len() <= u32::MAX,
    ensures
        ({
            let size = message_bytes(data.len() as int);
            let (post, r) = pre.replied(call_id, data);
            if pre.remote is None {
                post == pre && r == Err::<(), Error>(Error::RemoteConsumerUnknown)
            } else if !stays_in_cycle(pre, size) {
                &&& post == EndpointState { wrap_pending: true, ..pre }
                &&& r == Err::<(), Error>(Error::RingFull)
            } else if !peer_has_room(pre, size) {
                post == pre && r == Err::<(), Error>(Error::RingFull)
            } else {
                &&& r == Ok::<(), Error>(())
                &&& post == EndpointState {
                    ring: post.ring,
                    producer: pre.producer + size,
                    batch_count: pre.batch_count + 1,
                    ..pre
                }
                &&& message_stands(
                    pre,
                    post.ring,
                    0x8000_0000 + call_id as int % 0x8000_0000,
                    data,
                )
            }
        }),
{
    let size = message_bytes(data.len() as int);
    assert(Format::Dc.padded(data.len() as int) == size);
    if pre.remote is Some && stays_in_cycle(pre, size) && peer_has_room(pre, size) {
        assert(pre.has_space(size));
        lemma_room_at_producer(pre, size);
        law_topmost_bit_tells_response(call_id);
        law_message_is_written(pre, respond_to(call_id), data);
    }
}

/// A connected endpoint whose call or reply was taken or refused stands in the queue, at its end if it did
/// not stand there before. The others stand where they were.
pub proof fn law_caller_is_queued<U>(s: EndpointState<U>, queue: Seq<u32>)
    ensures
        ({
            let after = s.queue_after(queue);
            let id = s.local.endpoint_id;
            &&& s.remote is None ==> after == queue
            &&& s.remote is Some && queue.contains(id) ==> after == queue
            &&& s.remote is Some && !queue.contains(id) ==> after == queue.push(id)
        }),
{
}

/// What a flush comes to first. Open messages are closed and handed out. Without any, a wrap that was
/// asked for is, where the peer's ring has room. Without that, what was read is told in a batch of its
/// own, where the peer's ring has room. What has no room waits, and nothing changes.
#[verifier::rlimit(50)]
pub proof fn law_flush_comes_to<U>(s: EndpointState<U>)
    requires
        s.wf(),
        s.remote is Some,
    ensures
        ({
            let (t, step) = s.emit_start();
            if s.batch_count != 0 {
                &&& t == s.filled()
                &&& step == EmitStep::Post { stage: EmitStage::Batch, wqe: t.work_request() }
            } else if s.wrap_pending && wrap_has_room(s) {
                &&& t == s.wrapped()
                &&& step == EmitStep::Post {
                    stage: EmitStage::Wrap { after_batch: false },
                    wqe: t.work_request(),
                }
            } else if s.notified < s.recv_pos && unread(s, s.producer) <= s.remote->0.size {
                &&& t == s.headed(0)
                &&& step == EmitStep::Post { stage: EmitStage::CreditReturn, wqe: t.work_request() }
            } else if s.notified < s.recv_pos || s.wrap_pending {
                t == s && step == EmitStep::Done(Err(Error::RingFull))
            } else {
                t == s && step == EmitStep::Done(Ok(false))
            }
        }),
{
}

/// What a flush comes to when the device has answered. Where it took the batch, a wrap that was asked for
/// follows, if the peer's ring has room. Where it took a wrap, the wrap is no longer asked for. Where it
/// refused, nothing is sent or told, and the flush fails, unless a batch has gone out before.
#[verifier::rlimit(50)]
pub proof fn law_flush_goes_on_to<U>(s: EndpointState<U>, stage: EmitStage, outcome: PostOutcome)
    ensures
        ({
            let (t, step) = s.emit_resume(stage, outcome);
            let sent = s.sent();
            let error = if outcome == PostOutcome::QueueFull {
                Error::RingFull
            } else {
                Error::Io
            };
            if outcome == PostOutcome::Posted {
                match stage {
                    EmitStage::Batch => if s.wrap_pending && wrap_has_room(sent) {
                        &&& t == sent.wrapped()
                        &&& step == EmitStep::Post {
                            stage: EmitStage::Wrap { after_batch: true },
                            wqe: t.work_request(),
                        }
                    } else {
                        t == sent && step == EmitStep::Done(Ok(true))
                    },
                    EmitStage::Wrap { after_batch } => {
                        &&& t == EndpointState { wrap_pending: false, ..sent }
                        &&& step == EmitStep::Done(Ok(true))
                    },
                    EmitStage::CreditReturn => t == sent && step == EmitStep::Done(Ok(true)),
                }
            } else {
                &&& t == EndpointState { told: 0, ..s }
                &&& stage == (EmitStage::Wrap { after_batch: true }) ==> step == EmitStep::Done(
                    Ok(true),
                )
                &&& stage != (EmitStage::Wrap { after_batch: true }) ==> step == EmitStep::Done(
                    Err(error),
                )
            }
        }),
{
}

/// Where the next batch is read.
pub open spec fn batch_at<U>(s: EndpointState<U>) -> int {
    s.recv_pos % (s.local.recv_ring_len as int)
}

/// The messages of the next batch.
pub open spec fn batch_of<U>(s: EndpointState<U>, recv_ring: Seq<u8>) -> Arrival {
    Arrival { format: Format::Dc, ring: recv_ring, pos: s.recv_pos + 32 }
}

/// What a batch does when it is taken in. Its first number says how many bytes it is, its second how much
/// more of this side's bytes the peer has read. The position moves on behind its messages, or, where it
/// is a wrap, by its bytes. Its messages take effect on the calls in progress, the responses and the
/// requests. Nothing else changes.
#[verifier::rlimit(50)]
pub proof fn law_batch_taken_in<U>(
    s: EndpointState<U>,
    slot: usize,
    recv_ring: Seq<u8>,
    requests: Seq<RecvMessage>,
)
    ensures
        ({
            let at = batch_at(s);
            let count = le32_at(recv_ring, at + 16);
            let bare = Inbox { pending: s.pending, responses: Seq::empty(), requests: Seq::empty() };
            let before = Inbox { pending: s.pending, responses: Seq::empty(), requests };
            let arrival = batch_of(s, recv_ring);
            let wrap = count == 0xffff_ffff;
            &&& s.received(slot, recv_ring) == EndpointState {
                recv_producer: s.recv_producer + le64_at(recv_ring, at),
                consumer: s.consumer + le64_at(recv_ring, at + 8),
                recv_pos: if wrap {
                    s.recv_pos + le64_at(recv_ring, at)
                } else {
                    Format::Dc.messages_end(recv_ring, s.recv_pos + 32, count as nat)
                },
                pending: if wrap {
                    s.pending
                } else {
                    arrival.settle(slot, s.local.endpoint_id, bare, count as nat).pending
                },
                ..s
            }
            &&& s.inbox(slot, recv_ring, requests) == (if wrap {
                before
            } else {
                arrival.settle(slot, s.local.endpoint_id, before, count as nat)
            })
        }),
{
}

/// Which batches can be taken in: the header lies inside the receive ring, the numbers in it leave all
/// counters in 64 bits, and so do the messages, which lie inside the ring as far as they are needed. A
/// wrap is at least as long as its header.
pub proof fn law_which_batches_are_taken_in<U>(s: EndpointState<U>, recv_ring: Seq<u8>)
    ensures
        s.can_receive(recv_ring) <==> {
            let at = batch_at(s);
            let delta = le64_at(recv_ring, at);
            let count = le32_at(recv_ring, at + 16);
            &&& recv_ring.len() == s.local.recv_ring_len
            &&& at + 32 <= recv_ring.len()
            &&& s.recv_producer + delta <= u64::MAX
            &&& s.consumer + le64_at(recv_ring, at + 8) <= u64::MAX
            &&& count == 0xffff_ffff ==> 32 <= delta && s.recv_pos + delta <= u64::MAX
            &&& count != 0xffff_ffff ==> batch_of(s, recv_ring).valid(s.pending, count as nat)
        },
{
}

/// When a message can be sent at all: positions stay in 64 bits and the message count in 32. And what
/// has been read and not told is what lies between the two positions.
pub proof fn law_what_can_be_sent<U>(s: EndpointState<U>, payload_len: int, stage: EmitStage)
    ensures
        s.room_to_run(payload_len) <==> s.producer + s.ring.len() + message_bytes(payload_len) + 64
            <= u64::MAX && s.batch_count < u32::MAX,
        s.unreturned() + s.notified == s.recv_pos,
        s.in_flight() == unread(s, s.producer),
        s.fresh() <==> s.producer == 0 && s.meta_pos == 0 && s.flush_start == 0 && s.batch_count
            == 0 && !s.wrap_pending,
        s.stopped_at(stage) <==> s.remote is Some && match stage {
            EmitStage::Batch => s.batch_count > 0,
            EmitStage::Wrap { after_batch } => s.batch_count == 0 && s.wrap_pending
                && wrap_has_room(s) && s.producer == next_cycle(s),
            EmitStage::CreditReturn => s.batch_count == 0,
        },
{
}

/// When a batch is open: it starts where the device left off, at a multiple of 32, lies inside one ring
/// cycle, and holds its header and its messages, or, where it is empty, nothing but its header or a wrap
/// that has room.
pub proof fn law_when_a_batch_is_open<U>(s: EndpointState<U>)
    ensures
        s.open_batch() <==> {
            &&& s.flush_start == s.meta_pos
            &&& 0 <= s.meta_pos
            &&& s.meta_pos % 32 == 0
            &&& s.meta_pos % s.ring.len() as int + (s.producer - s.meta_pos) <= s.ring.len()
            &&& s.batch_count == 0 ==> s.producer == s.meta_pos + 32 || (s.wrap_pending
                && wrap_has_room(s) && s.producer == next_cycle(s))
            &&& s.batch_count != 0 ==> 0 < s.batch_count && s.producer == Format::Dc.messages_end(
                s.ring,
                s.meta_pos + 32,
                s.batch_count as nat,
            )
        },
{
}

/// A connected endpoint takes every request that stays in the ring cycle of the open batch and for which
/// the peer's ring has room, whatever else there is: however many messages are open, however many calls
/// are in progress, and whatever the request holds.
#[verifier::rlimit(50)]
pub proof fn law_request_with_room_is_taken<U>(
    pre: EndpointState<U>,
    data: Seq<u8>,
    user_data: U,
    post: EndpointState<U>,
    r: Result<u32, CallError<U>>,
)
    requires
        pre.wf(),
        pre.remote is Some,
        pre.calls(data, user_data, post, r),
        data.len() <= u32::MAX,
        pre.meta_pos % pre.ring.len() as int + (pre.producer - pre.meta_pos) + (data.len() + 39)
            / 32 * 32 < pre.ring.len(),
        (data.len() + 39) / 32 * 32 + 32 + (pre.producer - pre.consumer) <= pre.remote->0.size,
        (data.len() + 39) / 32 * 32 + 32 <= pre.remote->0.size,
    ensures
        r matches Ok(call_id) && {
            let at = pre.producer % pre.ring.len() as int;
            &&& post.batch_count == pre.batch_count + 1
            &&& post.producer == pre.producer + (data.len() + 39) / 32 * 32
            &&& le32_at(post.ring, at) == call_id
            &&& le32_at(post.ring, at + 4) == data.len()
            &&& post.ring.subrange(at + 8, at + 8 + data.len()) == data
            &&& exists|key: usize|
                key as int % 0x1_0000_0000 == call_id && !pre.pending.contains_key(key)
                    && #[trigger] post.pending.contains_key(key) && post.pending[key] == user_data
                    && post.pending.remove(key) =~= pre.pending
        },
{
    law_call_comes_to(pre, data, user_data, post, r);
    let key = choose|key: usize| #[trigger] call_taken(pre, data, user_data, key, post, r);
    assert(post.pending.contains_key(key));
    assert(post.pending.remove(key) =~= pre.pending);
}

/// The measures in which room is counted, in numbers: a message takes its header and its payload up to
/// the next multiple of 32; what the peer has not reported as read lies behind the position that it has
/// reported; and a batch starts over when the ring cycle is used up.
pub proof fn law_measures<U>(s: EndpointState<U>, len: int, size: int, up_to: int, ring: Seq<u8>)
    ensures
        0 <= len ==> message_bytes(len) % 32 == 0 && len + 8 <= message_bytes(len) < len + 40,
        s.consumer <= up_to ==> unread(s, up_to) == up_to - s.consumer,
        up_to <= s.consumer ==> unread(s, up_to) == 0,
        stays_in_cycle(s, size) <==> s.meta_pos % s.ring.len() as int + (s.producer - s.meta_pos)
            + size < s.ring.len(),
        next_cycle(s) + s.meta_pos % s.ring.len() as int == s.meta_pos + s.ring.len(),
        s.consumer <= s.producer ==> (peer_has_room(s, size) <==> size + 32 + (s.producer
            - s.consumer) <= s.remote->0.size),
        s.producer <= s.consumer ==> (peer_has_room(s, size) <==> size + 32 <= s.remote->0.size),
        s.consumer <= next_cycle(s) ==> (wrap_has_room(s) <==> next_cycle(s) - s.consumer + 32
            <= s.remote->0.size),
        next_cycle(s) <= s.consumer ==> (wrap_has_room(s) <==> 32 <= s.remote->0.size),
        batch_at(s) == s.recv_pos % (s.local.recv_ring_len as int),
        batch_of(s, ring).format == Format::Dc,
        batch_of(s, ring).ring == ring,
        batch_of(s, ring).pos == s.recv_pos + 32,
{
}

} // verus!
