//! What a batch of received messages turns into.

use vstd::prelude::*;

use crate::bytes::{le32_at, le64_at};
use crate::dc::wire::{dc_decode_header, dc_padded_message_size, DC_HEADER_SIZE};
use crate::encoding::{
    decode_header, from_response_id, is_response, padded_message_size, request_of, response_id,
    ALIGNMENT, HEADER_SIZE,
};
use crate::message::{lemma_messages_end_grows, Format, Message};
use crate::pending::PendingCalls;
use crate::ring::{is_pow2, ring_offset};

verus! {

/// A received request that waits for its handler.
#[derive(Debug, Clone, Copy, PartialEq, Eq, Structural)]
pub struct RecvMessage {
    /// Where its endpoint stands among the context's endpoints.
    pub endpoint: usize,
    /// The number by which completions name the endpoint.
    pub id: u32,
    /// Call identifier from the message header.
    pub call_id: u32,
    /// Where in the receive ring the payload starts.
    pub data_offset: usize,
    /// Length of the payload.
    pub data_len: usize,
    /// Bytes that the caller set aside for the response.
    pub response_allowance: u64,
}

/// A response, with the user data of the call that it answers.
#[derive(Debug)]
pub struct Response<U> {
    /// Where its endpoint stands among the context's endpoints.
    pub endpoint: usize,
    /// What the caller handed in with the call.
    pub user_data: U,
    /// Where in the receive ring the payload starts.
    pub data_offset: usize,
    /// Length of the payload.
    pub data_len: usize,
}

impl<U> Response<U> {
    /// The payload, in the receive ring of the endpoint that the response came in on.
    pub fn data<'a>(&self, recv_ring: &'a [u8]) -> (r: &'a [u8])
        requires
            self.data_offset + self.data_len <= recv_ring.len(),
        ensures
            r@ == recv_ring@.subrange(
                self.data_offset as int,
                self.data_offset + self.data_len,
            ),
    {
        vstd::slice::slice_subrange(recv_ring, self.data_offset, self.data_offset + self.data_len)
    }
}

/// Calls in progress, responses to hand out and requests to handle.
#[verifier::ext_equal]
pub ghost struct Inbox<U> {
    /// User data of the calls in progress.
    pub pending: Map<usize, U>,
    /// Responses, the oldest first.
    pub responses: Seq<Response<U>>,
    /// Requests, the oldest first.
    pub requests: Seq<RecvMessage>,
}

/// Where a batch of messages was received.
pub ghost struct Arrival {
    /// The message format.
    pub format: Format,
    /// The bytes of the receive ring.
    pub ring: Seq<u8>,
    /// Position of the first message.
    pub pos: int,
}

impl Arrival {
    /// Offset of message `i`.
    pub open spec fn offset(self, i: nat) -> int {
        self.format.messages_end(self.ring, self.pos, i) % self.ring.len() as int
    }

    /// `inbox` after the message at `offset`: a response ends the call that it answers, and is
    /// dropped where there is none; a request is put at the end.
    pub open spec fn deliver<U>(
        self,
        endpoint: usize,
        id: u32,
        inbox: Inbox<U>,
        offset: int,
    ) -> Inbox<U> {
        let m = self.format.message_at(self.ring, offset);
        let len = self.format.payload_len_at(self.ring, offset);
        if response_id(m.call_id as int) {
            let key = request_of(m.call_id) as usize;
            if inbox.pending.contains_key(key) {
                Inbox {
                    pending: inbox.pending.remove(key),
                    responses: inbox.responses.push(
                        Response {
                            endpoint,
                            user_data: inbox.pending[key],
                            data_offset: (offset + self.format.header()) as usize,
                            data_len: len as usize,
                        },
                    ),
                    requests: inbox.requests,
                }
            } else {
                inbox
            }
        } else {
            Inbox {
                pending: inbox.pending,
                responses: inbox.responses,
                requests: inbox.requests.push(
                    RecvMessage {
                        endpoint,
                        id,
                        call_id: m.call_id,
                        data_offset: (offset + self.format.header()) as usize,
                        data_len: len as usize,
                        response_allowance: (m.piggyback * 32 % 0x1_0000_0000_0000_0000) as u64,
                    },
                ),
            }
        }
    }

    /// `inbox` after the first `n` messages.
    pub open spec fn settle<U>(self, endpoint: usize, id: u32, inbox: Inbox<U>, n: nat) -> Inbox<U>
        decreases n,
    {
        if n == 0 {
            inbox
        } else {
            self.deliver(
                endpoint,
                id,
                self.settle(endpoint, id, inbox, (n - 1) as nat),
                self.offset((n - 1) as nat),
            )
        }
    }

    /// Message `i` is a response to call `key`.
    pub open spec fn answers(self, i: nat, key: usize) -> bool {
        let m = self.format.message_at(self.ring, self.offset(i));
        response_id(m.call_id as int) && request_of(m.call_id) as usize == key
    }

    /// The calls that are in progress after the first `n` messages.
    pub open spec fn left<U>(self, pending: Map<usize, U>, n: nat) -> Map<usize, U>
        decreases n,
    {
        if n == 0 {
            pending
        } else {
            let before = self.left(pending, (n - 1) as nat);
            let m = self.format.message_at(self.ring, self.offset((n - 1) as nat));
            if response_id(m.call_id as int) {
                before.remove(request_of(m.call_id) as usize)
            } else {
                before
            }
        }
    }

    /// Message `i` ends a call.
    pub open spec fn ends_call<U>(self, pending: Map<usize, U>, i: nat) -> bool {
        let m = self.format.message_at(self.ring, self.offset(i));
        response_id(m.call_id as int) && self.left(pending, i).contains_key(
            request_of(m.call_id) as usize,
        )
    }

    /// Message `i` can be taken in: its header lies inside the ring, and so does its payload, where
    /// it is a response that ends a call.
    pub open spec fn sound<U>(self, pending: Map<usize, U>, i: nat) -> bool {
        &&& self.offset(i) + self.format.header() <= self.ring.len()
        &&& self.ends_call(pending, i) ==> self.format.message_fits(
            self.ring,
            self.format.messages_end(self.ring, self.pos, i),
        )
    }

    /// Message `i` lies inside the ring, and its allowance is a number of bytes.
    pub open spec fn whole(self, i: nat) -> bool {
        let m = self.format.message_at(self.ring, self.offset(i));
        &&& self.format.message_fits(
            self.ring,
            self.format.messages_end(self.ring, self.pos, i),
        )
        &&& response_id(m.call_id as int) || m.piggyback * 32 <= u64::MAX
    }

    /// The first `n` messages can be taken in.
    pub open spec fn valid<U>(self, pending: Map<usize, U>, n: nat) -> bool {
        &&& self.format.messages_end(self.ring, self.pos, n) <= u64::MAX
        &&& forall|i: nat| i < n ==> #[trigger] self.sound(pending, i)
    }
}

/// A response, as its caller gets to see it.
#[verifier::ext_equal]
pub ghost struct Answer<U> {
    /// What the caller handed in with the call.
    pub user_data: U,
    /// The response.
    pub payload: Seq<u8>,
}

/// A request, as its handler gets to see it.
#[verifier::ext_equal]
pub ghost struct Ask {
    /// Call identifier.
    pub call_id: u32,
    /// The request.
    pub payload: Seq<u8>,
    /// Bytes that the caller set aside for the response.
    pub allowance: int,
}

/// Calls in progress, and what callers and handlers get to see.
#[verifier::ext_equal]
pub ghost struct Mail<U> {
    /// User data of the calls in progress.
    pub pending: Map<usize, U>,
    /// Responses, the oldest first.
    pub answers: Seq<Answer<U>>,
    /// Requests, the oldest first.
    pub asks: Seq<Ask>,
}

impl<U> Mail<U> {
    /// After a message: a response ends the call that it answers, and is dropped where there is
    /// none; a request is put at the end.
    pub open spec fn open(self, m: Message) -> Self {
        if response_id(m.call_id as int) {
            let key = request_of(m.call_id) as usize;
            if self.pending.contains_key(key) {
                Mail {
                    pending: self.pending.remove(key),
                    answers: self.answers.push(
                        Answer { user_data: self.pending[key], payload: m.payload },
                    ),
                    asks: self.asks,
                }
            } else {
                self
            }
        } else {
            Mail {
                pending: self.pending,
                answers: self.answers,
                asks: self.asks.push(
                    Ask {
                        call_id: m.call_id,
                        payload: m.payload,
                        allowance: m.piggyback * 32,
                    },
                ),
            }
        }
    }

    /// After some messages.
    pub open spec fn open_all(self, messages: Seq<Message>) -> Self
        decreases messages.len(),
    {
        if messages.len() == 0 {
            self
        } else {
            self.open_all(messages.drop_last()).open(messages.last())
        }
    }
}

impl<U> Inbox<U> {
    /// What callers and handlers see when they read the payloads in the receive ring.
    pub open spec fn read(self, ring: Seq<u8>) -> Mail<U> {
        Mail {
            pending: self.pending,
            answers: Seq::new(
                self.responses.len(),
                |i: int|
                    {
                        let r = self.responses[i];
                        Answer {
                            user_data: r.user_data,
                            payload: ring.subrange(
                                r.data_offset as int,
                                r.data_offset + r.data_len,
                            ),
                        }
                    },
            ),
            asks: Seq::new(
                self.requests.len(),
                |i: int|
                    {
                        let m = self.requests[i];
                        Ask {
                            call_id: m.call_id,
                            payload: ring.subrange(
                                m.data_offset as int,
                                m.data_offset + m.data_len,
                            ),
                            allowance: m.response_allowance as int,
                        }
                    },
            ),
        }
    }
}

/// Taking messages in leaves the calls in progress that no message answers.
pub proof fn lemma_settle_left<U>(
    arrival: Arrival,
    endpoint: usize,
    id: u32,
    inbox: Inbox<U>,
    n: nat,
)
    ensures
        arrival.settle(endpoint, id, inbox, n).pending == arrival.left(inbox.pending, n),
    decreases n,
{
    if n > 0 {
        lemma_settle_left(arrival, endpoint, id, inbox, (n - 1) as nat);
    }
    assert(arrival.settle(endpoint, id, inbox, n).pending =~= arrival.left(inbox.pending, n));
}

/// A call is in progress after some messages if it was before and none of them answers it.
proof fn lemma_left_contains<U>(arrival: Arrival, pending: Map<usize, U>, n: nat, key: usize)
    ensures
        arrival.left(pending, n).contains_key(key) == (pending.contains_key(key) && !exists|j: nat|
            j < n && #[trigger] arrival.answers(j, key)),
    decreases n,
{
    if n > 0 {
        let k = (n - 1) as nat;
        lemma_left_contains(arrival, pending, k, key);
        if arrival.answers(k, key) {
            assert(!arrival.left(pending, n).contains_key(key));
        } else {
            assert(arrival.left(pending, n).contains_key(key) == arrival.left(
                pending,
                k,
            ).contains_key(key));
            assert forall|j: nat| j < n && #[trigger] arrival.answers(j, key) implies j < k by {}
        }
    }
}

impl Arrival {
    /// The calls that the first `n` messages end, in their order.
    pub open spec fn ended<U>(self, pending: Map<usize, U>, n: nat) -> Seq<usize>
        decreases n,
    {
        if n == 0 {
            Seq::empty()
        } else {
            let k = (n - 1) as nat;
            let m = self.format.message_at(self.ring, self.offset(k));
            let before = self.ended(pending, k);
            if self.ends_call(pending, k) {
                before.push(request_of(m.call_id) as usize)
            } else {
                before
            }
        }
    }
}

/// A call is answered at most once: the responses that a batch brings are for different calls, all of
/// which were in progress before, each response has the user data of its call, and none of these calls
/// is in progress behind. The other calls stay in progress.
#[verifier::rlimit(50)]
pub proof fn law_batch_answers_once<U>(
    arrival: Arrival,
    endpoint: usize,
    id: u32,
    pending: Map<usize, U>,
    requests: Seq<RecvMessage>,
    n: nat,
)
    ensures
        ({
            let before = Inbox { pending, responses: Seq::empty(), requests };
            let after = arrival.settle(endpoint, id, before, n);
            let keys = arrival.ended(pending, n);
            &&& keys.no_duplicates()
            &&& after.responses.len() == keys.len()
            &&& forall|i: int|
                0 <= i < keys.len() ==> {
                    &&& pending.contains_key(#[trigger] keys[i])
                    &&& !after.pending.contains_key(keys[i])
                    &&& after.responses[i].user_data == pending[keys[i]]
                    &&& after.responses[i].endpoint == endpoint
                }
            &&& forall|k: usize| #[trigger]
                after.pending.contains_key(k) <==> pending.contains_key(k) && !keys.contains(k)
            &&& forall|k: usize| #[trigger]
                after.pending.contains_key(k) ==> after.pending[k] == pending[k]
        }),
    decreases n,
{
    let before = Inbox { pending, responses: Seq::empty(), requests };
    if n > 0 {
        let k = (n - 1) as nat;
        law_batch_answers_once(arrival, endpoint, id, pending, requests, k);
        lemma_settle_left(arrival, endpoint, id, before, k);
        let prev = arrival.settle(endpoint, id, before, k);
        let after = arrival.settle(endpoint, id, before, n);
        let m = arrival.format.message_at(arrival.ring, arrival.offset(k));
        let key = request_of(m.call_id) as usize;
        let old_keys = arrival.ended(pending, k);
        let keys = arrival.ended(pending, n);
        if arrival.ends_call(pending, k) {
            assert(prev.pending.contains_key(key));
            assert(!old_keys.contains(key));
            assert(keys == old_keys.push(key));
            assert(keys[old_keys.len() as int] == key);
            assert forall|j: usize| keys.contains(j) <==> old_keys.contains(j) || j == key by {
                if old_keys.contains(j) {
                    let i = old_keys.index_of(j);
                    assert(keys[i] == j);
                }
                if keys.contains(j) {
                    let i = keys.index_of(j);
                    if i < old_keys.len() {
                        assert(old_keys[i] == j);
                    }
                }
            }
            assert forall|i: int| 0 <= i < keys.len() implies {
                &&& pending.contains_key(#[trigger] keys[i])
                &&& !after.pending.contains_key(keys[i])
                &&& after.responses[i].user_data == pending[keys[i]]
                &&& after.responses[i].endpoint == endpoint
            } by {
                if i < old_keys.len() {
                    assert(keys[i] == old_keys[i]);
                    assert(after.responses[i] == prev.responses[i]);
                }
            }
        } else {
            assert(after.pending == prev.pending);
            assert(after.responses == prev.responses);
        }
    }
}

/// What callers and handlers see of one more message is what it carries.
#[verifier::rlimit(50)]
proof fn lemma_delivery_is_read<U>(
    arrival: Arrival,
    endpoint: usize,
    id: u32,
    before: Inbox<U>,
    k: nat,
)
    requires
        arrival.whole(k),
        0 < arrival.ring.len() <= usize::MAX,
    ensures
        arrival.deliver(endpoint, id, before, arrival.offset(k)).read(arrival.ring) == before.read(
            arrival.ring,
        ).open(arrival.format.message_at(arrival.ring, arrival.offset(k))),
{
    let ring = arrival.ring;
    vstd::arithmetic::div_mod::lemma_mod_bound(
        arrival.format.messages_end(ring, arrival.pos, k),
        ring.len() as int,
    );
    let offset = arrival.offset(k);
    let after = arrival.deliver(endpoint, id, before, offset);
    let msg = arrival.format.message_at(ring, offset);
    let start = offset + arrival.format.header();
    let len = arrival.format.payload_len_at(ring, offset);
    assert(start as usize == start && len as usize == len);
    if !response_id(msg.call_id as int) {
        assert(msg.piggyback * 32 % 0x1_0000_0000_0000_0000 == msg.piggyback * 32);
    }
    let seen = before.read(ring).open(msg);
    assert(after.read(ring).answers =~= seen.answers);
    assert(after.read(ring).asks =~= seen.asks);
    assert(after.read(ring) =~= seen);
}

/// Callers and handlers see the messages of a batch: each message once, in its order, with its
/// payload.
pub proof fn law_batch_is_read<U>(
    arrival: Arrival,
    endpoint: usize,
    id: u32,
    inbox: Inbox<U>,
    n: nat,
    m: nat,
)
    requires
        forall|i: nat| i < m ==> #[trigger] arrival.whole(i),
        n <= m,
        0 < arrival.ring.len() <= usize::MAX,
    ensures
        arrival.settle(endpoint, id, inbox, n).read(arrival.ring) == inbox.read(
            arrival.ring,
        ).open_all(arrival.format.messages(arrival.ring, arrival.pos, n)),
    decreases n,
{
    if n > 0 {
        let k = (n - 1) as nat;
        let messages = arrival.format.messages(arrival.ring, arrival.pos, n);
        law_batch_is_read(arrival, endpoint, id, inbox, k, m);
        assert(arrival.whole(k));
        lemma_delivery_is_read(
            arrival,
            endpoint,
            id,
            arrival.settle(endpoint, id, inbox, k),
            k,
        );
        assert(messages.drop_last() =~= arrival.format.messages(arrival.ring, arrival.pos, k));
    }
}

/// Messages end calls, but never change the user data of one that they leave in progress.
pub proof fn lemma_open_all_keeps<U>(mail: Mail<U>, messages: Seq<Message>, key: usize)
    requires
        mail.open_all(messages).pending.contains_key(key),
    ensures
        mail.pending.contains_key(key),
        mail.open_all(messages).pending[key] == mail.pending[key],
    decreases messages.len(),
{
    if messages.len() > 0 {
        lemma_open_all_keeps(mail, messages.drop_last(), key);
    }
}

/// A request at the end of some messages is the last one that a handler finds.
pub proof fn lemma_last_ask<U>(mail: Mail<U>, batch: Seq<Message>, m: Message)
    requires
        !response_id(m.call_id as int),
    ensures
        ({
            let asks = mail.open_all(batch.push(m)).asks;
            &&& 0 < asks.len()
            &&& asks.last() == (Ask {
                call_id: m.call_id,
                payload: m.payload,
                allowance: m.piggyback * 32,
            })
        }),
{
    assert(batch.push(m).drop_last() =~= batch);
}

/// What was in the inbox before stays at its front, and has no say in what comes behind it.
pub proof fn lemma_settle_behind<U>(
    arrival: Arrival,
    endpoint: usize,
    id: u32,
    pending: Map<usize, U>,
    responses: Seq<Response<U>>,
    requests: Seq<RecvMessage>,
    n: nat,
)
    ensures
        ({
            let bare = arrival.settle(
                endpoint,
                id,
                Inbox { pending, responses: Seq::empty(), requests: Seq::empty() },
                n,
            );
            arrival.settle(endpoint, id, Inbox { pending, responses, requests }, n) == (Inbox {
                pending: bare.pending,
                responses: responses + bare.responses,
                requests: requests + bare.requests,
            })
        }),
    decreases n,
{
    let bare = arrival.settle(
        endpoint,
        id,
        Inbox { pending, responses: Seq::empty(), requests: Seq::empty() },
        n,
    );
    let full = arrival.settle(endpoint, id, Inbox { pending, responses, requests }, n);
    if n > 0 {
        lemma_settle_behind(
            arrival,
            endpoint,
            id,
            pending,
            responses,
            requests,
            (n - 1) as nat,
        );
    }
    assert(full.responses =~= responses + bare.responses);
    assert(full.requests =~= requests + bare.requests);
}

/// Payloads of responses that end calls lie inside the ring.
#[verifier::rlimit(50)]
pub proof fn lemma_settle_inside<U>(
    arrival: Arrival,
    endpoint: usize,
    id: u32,
    pending: Map<usize, U>,
    n: nat,
    m: nat,
)
    requires
        arrival.valid(pending, m),
        n <= m,
        0 < arrival.ring.len() <= usize::MAX,
    ensures
        ({
            let bare = arrival.settle(
                endpoint,
                id,
                Inbox { pending, responses: Seq::empty(), requests: Seq::empty() },
                n,
            );
            &&& forall|i: int|
                0 <= i < bare.responses.len() ==> {
                    &&& (#[trigger] bare.responses[i]).data_offset + bare.responses[i].data_len
                        <= arrival.ring.len()
                    &&& bare.responses[i].endpoint == endpoint
                }
            &&& forall|i: int|
                0 <= i < bare.requests.len() ==> {
                    &&& (#[trigger] bare.requests[i]).data_offset <= arrival.ring.len()
                    &&& bare.requests[i].endpoint == endpoint
                    &&& bare.requests[i].id == id
                }
        }),
    decreases n,
{
    if n > 0 {
        lemma_settle_inside(arrival, endpoint, id, pending, (n - 1) as nat, m);
        assert(arrival.sound(pending, (n - 1) as nat));
        vstd::arithmetic::div_mod::lemma_mod_bound(
            arrival.format.messages_end(arrival.ring, arrival.pos, (n - 1) as nat),
            arrival.ring.len() as int,
        );
        let start = Inbox { pending, responses: Seq::empty(), requests: Seq::empty() };
        let prev = arrival.settle(endpoint, id, start, (n - 1) as nat);
        lemma_settle_left(arrival, endpoint, id, start, (n - 1) as nat);
        let offset = arrival.offset((n - 1) as nat);
        let len = arrival.format.payload_len_at(arrival.ring, offset);
        assert(0 <= offset && 0 <= len);
        assert(arrival.settle(endpoint, id, start, n) == arrival.deliver(
            endpoint,
            id,
            prev,
            offset,
        ));
    }
}

/// Reads the message header at `offset`: call identifier, piggyback, payload length.
fn read_header(format: Format, ring: &[u8], offset: usize) -> (r: (u32, u64, u32))
    requires
        offset + format.header() <= ring.len(),
    ensures
        r.0 == format.message_at(ring@, offset as int).call_id,
        r.1 == format.message_at(ring@, offset as int).piggyback,
        r.2 == format.payload_len_at(ring@, offset as int),
{
    match format {
        Format::Rc => decode_header(ring, offset),
        Format::Dc => {
            let (call_id, payload_len) = dc_decode_header(ring, offset);
            (call_id, 0, payload_len)
        },
    }
}

/// Bytes that a message takes in a ring.
fn message_size(format: Format, payload_len: u32) -> (r: u64)
    ensures
        r == format.padded(payload_len as int),
{
    match format {
        Format::Rc => padded_message_size(payload_len),
        Format::Dc => dc_padded_message_size(payload_len),
    }
}

/// Bytes in a message header.
fn header_size(format: Format) -> (r: usize)
    ensures
        r == format.header(),
{
    match format {
        Format::Rc => HEADER_SIZE,
        Format::Dc => DC_HEADER_SIZE,
    }
}

/// Tells whether one of the first `n` messages from position `pos` on answers call `key`.
fn answered(format: Format, ring: &[u8], pos: u64, n: u32, key: usize) -> (r: bool)
    requires
        is_pow2(ring@.len() as int),
        format.messages_end(ring@, pos as int, n as nat) <= u64::MAX,
        forall|j: nat|
            j < n ==> (#[trigger] (Arrival { format, ring: ring@, pos: pos as int }).offset(j))
                + format.header() <= ring@.len(),
    ensures
        r == exists|j: nat|
            j < n && #[trigger] (Arrival { format, ring: ring@, pos: pos as int }).answers(j, key),
{
    let ghost arrival = Arrival { format, ring: ring@, pos: pos as int };
    let mut at: u64 = pos;
    let mut i: u32 = 0;
    while i < n
        invariant
            is_pow2(ring@.len() as int),
            arrival == (Arrival { format, ring: ring@, pos: pos as int }),
            format.messages_end(ring@, pos as int, n as nat) <= u64::MAX,
            forall|j: nat|
                j < n ==> (#[trigger] arrival.offset(j)) + format.header() <= ring@.len(),
            i <= n,
            at == format.messages_end(ring@, pos as int, i as nat),
            forall|j: nat| j < i ==> !#[trigger] arrival.answers(j, key),
        decreases n - i,
    {
        let offset: usize = ring_offset(at, ring.len() as u64) as usize;
        assert(offset == arrival.offset(i as nat));
        let (call_id, _, payload_len) = read_header(format, ring, offset);
        if is_response(call_id) && from_response_id(call_id) as usize == key {
            assert(arrival.answers(i as nat, key));
            return true;
        }
        assert(!arrival.answers(i as nat, key));
        let size: u64 = message_size(format, payload_len);
        proof {
            lemma_messages_end_grows(format, ring@, pos as int, (i + 1) as nat, n as nat);
        }
        at = at + size;
        i = i + 1;
    }
    false
}

/// Tells whether `count` messages from position `pos` on can be taken in.
#[verifier::rlimit(50)]
pub fn messages_valid<U>(
    format: Format,
    ring: &[u8],
    pos: u64,
    count: u32,
    pending: &PendingCalls<U>,
) -> (r: bool)
    requires
        is_pow2(ring@.len() as int),
        pending.wf(),
    ensures
        r == (Arrival { format, ring: ring@, pos: pos as int }).valid(pending@, count as nat),
{
    let ghost arrival = Arrival { format, ring: ring@, pos: pos as int };
    let mut at: u64 = pos;
    let mut i: u32 = 0;
    while i < count
        invariant
            is_pow2(ring@.len() as int),
            arrival == (Arrival { format, ring: ring@, pos: pos as int }),
            i <= count,
            at == format.messages_end(ring@, pos as int, i as nat),
            pending.wf(),
            forall|j: nat| j < i ==> #[trigger] arrival.sound(pending@, j),
        decreases count - i,
    {
        let offset: usize = ring_offset(at, ring.len() as u64) as usize;
        assert(offset == arrival.offset(i as nat));
        if ring.len() - offset < header_size(format) {
            assert(!arrival.sound(pending@, i as nat));
            return false;
        }
        let (call_id, _, payload_len) = read_header(format, ring, offset);
        if is_response(call_id) && ring.len() - offset - header_size(format)
            < payload_len as usize {
            let key: usize = from_response_id(call_id) as usize;
            proof {
                lemma_left_contains(arrival, pending@, i as nat, key);
                assert forall|j: nat| j < i implies (#[trigger] arrival.offset(j))
                    + format.header() <= ring@.len() by {
                    assert(arrival.sound(pending@, j));
                }
            }
            if pending.contains(key) && !answered(format, ring, pos, i, key) {
                assert(!arrival.sound(pending@, i as nat));
                return false;
            }
        }
        let size: u64 = message_size(format, payload_len);
        assert(arrival.sound(pending@, i as nat));
        proof {
            lemma_messages_end_grows(format, ring@, pos as int, (i + 1) as nat, count as nat);
        }
        if at > u64::MAX - size {
            return false;
        }
        at = at + size;
        i = i + 1;
    }
    true
}

/// Takes in `count` messages from position `pos` on. Returns the position behind them.
#[verifier::rlimit(50)]
pub fn take_messages<U>(
    format: Format,
    ring: &[u8],
    pos: u64,
    count: u32,
    endpoint: usize,
    id: u32,
    pending: &mut PendingCalls<U>,
    responses: &mut Vec<Response<U>>,
    requests: &mut Vec<RecvMessage>,
) -> (end: u64)
    requires
        is_pow2(ring@.len() as int),
        old(pending).wf(),
        (Arrival { format, ring: ring@, pos: pos as int }).valid(old(pending)@, count as nat),
    ensures
        final(pending).wf(),
        final(pending).slots() == old(pending).slots(),
        end == format.messages_end(ring@, pos as int, count as nat),
        ({
            let arrival = Arrival { format, ring: ring@, pos: pos as int };
            let before = Inbox {
                pending: old(pending)@,
                responses: old(responses)@,
                requests: old(requests)@,
            };
            Inbox {
                pending: final(pending)@,
                responses: final(responses)@,
                requests: final(requests)@,
            } == arrival.settle(endpoint, id, before, count as nat)
        }),
{
    let ghost arrival = Arrival { format, ring: ring@, pos: pos as int };
    let ghost before = Inbox {
        pending: pending@,
        responses: responses@,
        requests: requests@,
    };
    let mut at: u64 = pos;
    let mut i: u32 = 0;
    while i < count
        invariant
            is_pow2(ring@.len() as int),
            arrival == (Arrival { format, ring: ring@, pos: pos as int }),
            before.pending == old(pending)@,
            arrival.valid(before.pending, count as nat),
            pending.slots() == old(pending).slots(),
            i <= count,
            at == format.messages_end(ring@, pos as int, i as nat),
            pending.wf(),
            (Inbox { pending: pending@, responses: responses@, requests: requests@ })
                == arrival.settle(endpoint, id, before, i as nat),
        decreases count - i,
    {
        let offset: usize = ring_offset(at, ring.len() as u64) as usize;
        assert(offset == arrival.offset(i as nat));
        assert(arrival.sound(before.pending, i as nat));
        let (call_id, piggyback, payload_len) = read_header(format, ring, offset);
        let size: u64 = message_size(format, payload_len);
        proof {
            lemma_messages_end_grows(format, ring@, pos as int, (i + 1) as nat, count as nat);
        }
        at = at + size;
        let data_offset: usize = offset + header_size(format);
        let data_len: usize = payload_len as usize;
        if is_response(call_id) {
            let request_id: u32 = from_response_id(call_id);
            match pending.try_remove(request_id as usize) {
                Some(user_data) => {
                    responses.push(Response { endpoint, user_data, data_offset, data_len });
                },
                None => {
                    assert(pending@ =~= arrival.settle(endpoint, id, before, i as nat).pending);
                },
            }
        } else {
            requests.push(
                RecvMessage {
                    endpoint,
                    id,
                    call_id,
                    data_offset,
                    data_len,
                    response_allowance: piggyback.wrapping_mul(ALIGNMENT),
                },
            );
        }
        i = i + 1;
        assert((Inbox { pending: pending@, responses: responses@, requests: requests@ })
            =~= arrival.settle(endpoint, id, before, i as nat));
    }
    at
}

/// What one message does. A request goes to the end of the requests, with its call identifier, the place
/// of its payload, and the bytes set aside for its response. A response to a call in progress ends that
/// call and goes to the end of the responses, with the user data of the call and the place of its
/// payload. A response to no call in progress does nothing.
pub proof fn law_message_is_delivered<U>(
    arrival: Arrival,
    endpoint: usize,
    id: u32,
    inbox: Inbox<U>,
    offset: int,
)
    requires
        0 <= offset,
        offset + 16 <= arrival.ring.len() <= usize::MAX,
    ensures
        ({
            let ring = arrival.ring;
            let (start, len, blocks) = match arrival.format {
                Format::Rc => (
                    offset + 16,
                    le32_at(ring, offset + 12),
                    le64_at(ring, offset + 4),
                ),
                Format::Dc => (offset + 8, le32_at(ring, offset + 4), 0),
            };
            let call_id = le32_at(ring, offset);
            let key = (call_id - 0x8000_0000) as usize;
            let after = arrival.deliver(endpoint, id, inbox, offset);
            if call_id < 0x8000_0000 {
                after == (Inbox {
                    pending: inbox.pending,
                    responses: inbox.responses,
                    requests: inbox.requests.push(
                        RecvMessage {
                            endpoint,
                            id,
                            call_id: call_id as u32,
                            data_offset: start as usize,
                            data_len: len as usize,
                            response_allowance: (32 * blocks % 0x1_0000_0000_0000_0000) as u64,
                        },
                    ),
                })
            } else if inbox.pending.contains_key(key) {
                after == (Inbox {
                    pending: inbox.pending.remove(key),
                    responses: inbox.responses.push(
                        Response {
                            endpoint,
                            user_data: inbox.pending[key],
                            data_offset: start as usize,
                            data_len: len as usize,
                        },
                    ),
                    requests: inbox.requests,
                })
            } else {
                after == inbox
            }
        }),
{
    let call_id = le32_at(arrival.ring, offset);
    assert(call_id as u32 == call_id);
    if call_id >= 0x8000_0000 {
        assert(request_of(call_id as u32) as usize == (call_id - 0x8000_0000) as usize);
    }
}

/// Messages take effect one by one, in the order in which they lie in the batch, from its first on.
pub proof fn law_messages_take_effect_in_order<U>(
    arrival: Arrival,
    endpoint: usize,
    id: u32,
    inbox: Inbox<U>,
    n: nat,
)
    ensures
        arrival.settle(endpoint, id, inbox, 0) == inbox,
        arrival.settle(endpoint, id, inbox, n + 1) == arrival.deliver(
            endpoint,
            id,
            arrival.settle(endpoint, id, inbox, n),
            arrival.format.messages_end(arrival.ring, arrival.pos, n) % arrival.ring.len() as int,
        ),
{
}

/// Requests and responses that were there stay where they are, and what a batch brings comes behind them
/// and does not depend on them.
pub proof fn law_nothing_is_taken_away<U>(
    arrival: Arrival,
    endpoint: usize,
    id: u32,
    inbox: Inbox<U>,
    n: nat,
)
    ensures
        ({
            let fresh = arrival.settle(
                endpoint,
                id,
                Inbox { pending: inbox.pending, responses: Seq::empty(), requests: Seq::empty() },
                n,
            );
            let after = arrival.settle(endpoint, id, inbox, n);
            &&& after.requests == inbox.requests + fresh.requests
            &&& after.responses == inbox.responses + fresh.responses
            &&& after.pending == fresh.pending
        }),
{
    lemma_settle_behind(
        arrival,
        endpoint,
        id,
        inbox.pending,
        inbox.responses,
        inbox.requests,
        n,
    );
}

/// The header of the message at position `pos` lies inside the ring, and so does its payload, where it is
/// a response to one of the calls in `left`.
pub open spec fn lies_inside<U>(arrival: Arrival, left: Map<usize, U>, pos: int) -> bool {
    let ring = arrival.ring;
    let at = pos % ring.len() as int;
    let call_id = le32_at(ring, at);
    let (start, len) = match arrival.format {
        Format::Rc => (at + 16, le32_at(ring, at + 12)),
        Format::Dc => (at + 8, le32_at(ring, at + 4)),
    };
    &&& start <= ring.len()
    &&& 0x8000_0000 <= call_id && left.contains_key((call_id - 0x8000_0000) as usize) ==> start + len
        <= ring.len()
}

/// Which batches can be taken in: the end is a position, and each message lies inside the ring as far as
/// it is needed. The calls that are in progress up to a message are those that the messages before it
/// have left.
pub proof fn law_batches_that_can_be_taken_in<U>(arrival: Arrival, pending: Map<usize, U>, n: nat)
    requires
        0 < arrival.ring.len(),
    ensures
        arrival.valid(pending, n) <==> {
            &&& arrival.format.messages_end(arrival.ring, arrival.pos, n) <= u64::MAX
            &&& forall|i: nat|
                i < n ==> #[trigger] lies_inside(
                    arrival,
                    arrival.settle(
                        0,
                        0,
                        Inbox { pending, responses: Seq::empty(), requests: Seq::empty() },
                        i,
                    ).pending,
                    arrival.format.messages_end(arrival.ring, arrival.pos, i),
                )
        },
{
    let ring = arrival.ring;
    let before = Inbox { pending, responses: Seq::empty(), requests: Seq::empty() };
    assert forall|i: nat| i < n implies arrival.sound(pending, i) == #[trigger] lies_inside(
        arrival,
        arrival.settle(0, 0, before, i).pending,
        arrival.format.messages_end(ring, arrival.pos, i),
    ) by {
        lemma_settle_left(arrival, 0, 0, before, i);
        let at = arrival.format.messages_end(ring, arrival.pos, i) % ring.len() as int;
        let call_id = le32_at(ring, at);
        assert(call_id as u32 == call_id);
        if call_id >= 0x8000_0000 {
            assert(request_of(call_id as u32) as usize == (call_id - 0x8000_0000) as usize);
        }
    }
    if arrival.valid(pending, n) {
        assert forall|i: nat| i < n implies #[trigger] lies_inside(
            arrival,
            arrival.settle(0, 0, before, i).pending,
            arrival.format.messages_end(ring, arrival.pos, i),
        ) by {
            assert(arrival.sound(pending, i));
        }
    } else if arrival.format.messages_end(ring, arrival.pos, n) <= u64::MAX {
        let i = choose|i: nat| i < n && !#[trigger] arrival.sound(pending, i);
        assert(!lies_inside(
            arrival,
            arrival.settle(0, 0, before, i).pending,
            arrival.format.messages_end(ring, arrival.pos, i),
        ));
    }
}

} // verus!
