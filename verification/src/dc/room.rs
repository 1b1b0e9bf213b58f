//! What holds of room in the peer's ring.
//!
//! What an endpoint has handed to the device and its peer has not reported as read fits into the
//! peer's ring. Room for one more batch header is kept free, so that ring space can be given back also
//! where both sides are full. Only a batch that gives ring space back uses this room up.

use vstd::prelude::*;

use crate::dc::info::RemoteEndpointInfo;
use crate::dc::laws::{in_range, in_step, landed, law_batch_arrives};
use crate::dc::shared::ContextState;
use crate::dc::state::EndpointState;
use crate::dc::step::EmitStep;
use crate::error::{CallError, PostOutcome};
use crate::message::{lemma_padded_bounds, Format};

verus! {

/// Position up to which the send ring holds batches: the header of an empty batch does not count.
pub open spec fn used_to<U>(s: EndpointState<U>) -> int {
    if s.batch_count == 0 {
        s.meta_pos
    } else {
        s.producer
    }
}

/// The peer's ring has room for everything that was sent or is to be sent.
pub open spec fn in_ring<U>(s: EndpointState<U>) -> bool {
    used_to(s) - s.consumer <= s.remote_size()
}

/// The peer's ring has room for one more batch header.
pub open spec fn has_reserve<U>(s: EndpointState<U>) -> bool {
    used_to(s) - s.consumer + 32 <= s.remote_size()
}

/// A new connection has room for a batch header.
pub proof fn law_connect_has_reserve<U>(
    s: EndpointState<U>,
    remote: RemoteEndpointInfo,
)
    requires
        s.wf(),
        s.remote is None,
        32 <= remote.ring().size,
    ensures
        has_reserve(s.linked(remote)),
{
}

/// A call that is taken leaves room in the peer's ring for one more batch header, and its batch inside
/// one ring cycle. A call that is refused takes no room.
pub proof fn law_call_leaves_reserve<U>(
    pre: EndpointState<U>,
    data: Seq<u8>,
    user_data: U,
    post: EndpointState<U>,
    r: Result<u32, CallError<U>>,
)
    requires
        pre.wf(),
        pre.remote is Some,
        pre.calls(data, user_data, post, r),
    ensures
        r is Ok ==> {
            &&& post.producer - post.consumer + 32 <= post.remote_size()
            &&& post.offset(post.meta_pos) + (post.producer - post.meta_pos) < post.len()
            &&& has_reserve(post)
            &&& has_reserve(post.filled().sent())
        },
        r is Err ==> used_to(post) == used_to(pre) && post.consumer == pre.consumer,
        has_reserve(pre) ==> has_reserve(post),
        in_ring(pre) ==> in_ring(post),
{
    lemma_padded_bounds(Format::Dc, data.len() as int);
}

/// A reply that is taken leaves room in the peer's ring for one more batch header, and its batch inside
/// one ring cycle. A reply that is refused takes no room.
pub proof fn law_reply_leaves_reserve<U>(pre: EndpointState<U>, call_id: u32, data: Seq<u8>)
    requires
        pre.wf(),
        pre.remote is Some,
    ensures
        ({
            let (post, r) = pre.replied(call_id, data);
            &&& r is Ok ==> {
                &&& post.producer - post.consumer + 32 <= post.remote_size()
                &&& post.offset(post.meta_pos) + (post.producer - post.meta_pos) < post.len()
                &&& has_reserve(post)
                &&& has_reserve(post.filled().sent())
            }
            &&& r is Err ==> used_to(post) == used_to(pre) && post.consumer == pre.consumer
            &&& has_reserve(pre) ==> has_reserve(post)
            &&& in_ring(pre) ==> in_ring(post)
        }),
{
    lemma_padded_bounds(Format::Dc, data.len() as int);
}

/// Taking in a batch makes room: as much as the batch gives back.
pub proof fn law_receive_makes_room<U>(s: EndpointState<U>, slot: usize, recv_ring: Seq<u8>)
    requires
        s.wf(),
    ensures
        used_to(s.received(slot, recv_ring)) == used_to(s),
        in_ring(s) ==> in_ring(s.received(slot, recv_ring)),
        has_reserve(s) ==> has_reserve(s.received(slot, recv_ring)),
        in_ring(s) && s.received(slot, recv_ring).consumer >= s.consumer + 32 ==> has_reserve(
            s.received(slot, recv_ring),
        ),
{
}

/// The stretch behind the open batch keeps to the room in the peer's ring.
#[verifier::rlimit(50)]
proof fn lemma_tail_room<U>(s: EndpointState<U>, emitted: bool, outcome: PostOutcome)
    requires
        s.remote is Some,
        s.batch_count == 0,
        s.producer == s.meta_pos + 32 || s.wrap_pending && s.wrap_fits(),
        in_ring(s),
    ensures
        ({
            let (t, step) = s.emit_tail(emitted);
            &&& in_ring(t)
            &&& has_reserve(s) ==> has_reserve(t)
            &&& step matches EmitStep::Post { stage, wqe } ==> {
                let (u, next) = t.emit_resume(stage, outcome);
                &&& next is Done
                &&& in_ring(u)
                &&& stage is Wrap || outcome !is Posted ==> (has_reserve(s) ==> has_reserve(u))
                &&& stage is CreditReturn ==> t.told > 0
                &&& stage !is Batch
            }
        }),
{
    let (t, step) = s.emit_tail(emitted);
    if s.wrap_pending && s.wrap_fits() {
        assert(t == s.wrapped());
        assert(used_to(t) == used_to(s));
        assert(used_to(t.sent()) == s.cycle_end());
    } else if !emitted && s.unreturned() > 0 && s.batch_fits() {
        assert(t == s.headed(0));
        assert(used_to(t.sent()) == s.producer);
    } else {
        assert(t == s);
    }
}

/// Every stretch of a flush keeps what is in flight within the peer's ring, wraps and batches without
/// messages among them, whatever the device says. The room for one more batch header goes only to a
/// batch that gives ring space back.
#[verifier::rlimit(50)]
pub proof fn law_flush_stays_in_ring<U>(
    s: EndpointState<U>,
    outcome: PostOutcome,
    next_outcome: PostOutcome,
)
    requires
        s.wf(),
        s.remote is Some,
        in_ring(s),
        s.batch_count > 0 ==> has_reserve(s),
    ensures
        ({
            let (s1, step1) = s.emit_start();
            &&& in_ring(s1)
            &&& step1 matches EmitStep::Post { stage, wqe } ==> {
                let (s2, step2) = s1.emit_resume(stage, outcome);
                &&& in_ring(s2)
                &&& has_reserve(s) && !has_reserve(s2) ==> stage is CreditReturn && s1.told > 0
                &&& step2 matches EmitStep::Post { stage: stage2, wqe: wqe2 } ==> {
                    let (s3, step3) = s2.emit_resume(stage2, next_outcome);
                    &&& step3 is Done
                    &&& in_ring(s3)
                    &&& has_reserve(s) ==> has_reserve(s3)
                }
            }
        }),
{
    if s.batch_count == 0 {
        lemma_tail_room(s, false, outcome);
    } else {
        lemma_tail_room(s.filled().sent(), true, next_outcome);
    }
}

/// Ring space can always be given back: where there is room for one more batch header, a flush of an
/// endpoint that has ring space to give back posts a batch that does so, also where a wrap has to wait.
pub proof fn law_reserve_returns_credit<U>(s: EndpointState<U>)
    requires
        s.wf(),
        s.remote is Some,
        has_reserve(s),
        s.unreturned() > 0,
    ensures
        s.emit_start().1 is Post,
        s.emit_start().0.told == s.unreturned(),
        s.emit_start().0.sent().unreturned() == 0,
{
}

/// Two sides that have both used up the room for one more batch header are not stuck. Each has used it
/// for a batch that gives ring space back. When the one of `a` has landed at `b`, `b` takes it in, has
/// room for a batch header again, and its next flush gives ring space back in its turn.
#[verifier::rlimit(50)]
pub proof fn law_full_sides_go_on<U, V>(
    a: EndpointState<U>,
    b: EndpointState<V>,
    slot: usize,
    recv_ring: Seq<u8>,
)
    requires
        a.wf(),
        a.remote is Some,
        a.batch_count == 0,
        a.producer == a.meta_pos + 32,
        a.unreturned() >= 32,
        b.wf(),
        b.remote is Some,
        in_ring(b),
        in_step(a, b),
        in_range(a, b),
        recv_ring.len() == b.local.recv_ring_len,
        recv_ring.len() <= usize::MAX,
        landed(a.headed(0), recv_ring),
    ensures
        ({
            let after = b.received(slot, recv_ring);
            &&& b.can_receive(recv_ring)
            &&& has_reserve(after)
            &&& after.unreturned() > 0
            &&& after.emit_start().1 is Post
            &&& after.emit_start().0.told == after.unreturned()
        }),
{
    assert(a.filled() == a.headed(0));
    law_batch_arrives(a, b, slot, recv_ring);
    law_receive_makes_room(b, slot, recv_ring);
    law_reserve_returns_credit(b.received(slot, recv_ring));
}

/// Bytes that the peer has not read are not written over: what lies between its position and the end of
/// the last batch fits into its ring.
pub proof fn law_unread_bytes_are_safe<U, V>(s: EndpointState<U>, r: EndpointState<V>)
    requires
        s.wf(),
        in_ring(s),
        s.consumer <= r.recv_pos,
    ensures
        used_to(s) - r.recv_pos <= s.remote_size(),
{
}

/// After `n` more work requests.
pub open spec fn emitted_times<U>(s: EndpointState<U>, n: nat) -> EndpointState<U>
    decreases n,
{
    if n == 0 {
        s
    } else {
        emitted_times(s, (n - 1) as nat).emitted()
    }
}

/// Every eighth work request of an endpoint is signaled.
pub proof fn law_signal_interval<U>(s: EndpointState<U>, n: nat)
    requires
        s.unsignaled == 0,
    ensures
        emitted_times(s, n).unsignaled == n % 8,
        emitted_times(s, n).work_request().signaled is Some <==> n % 8 == 7,
    decreases n,
{
    if n > 0 {
        law_signal_interval(s, (n - 1) as nat);
    }
}

/// The signaled work requests that an endpoint holds add up to an eighth of all that the device took:
/// of `n` more work requests each eighth is counted, and the rest is what was sent since.
pub proof fn law_signals_add_up<U>(s: EndpointState<U>, n: nat)
    requires
        0 <= s.unsignaled <= 7,
        0 <= s.newly_signaled,
        s.newly_signaled + n < u32::MAX,
    ensures
        8 * emitted_times(s, n).newly_signaled + emitted_times(s, n).unsignaled == 8
            * s.newly_signaled + s.unsignaled + n,
        0 <= emitted_times(s, n).unsignaled <= 7,
        s.newly_signaled <= emitted_times(s, n).newly_signaled <= s.newly_signaled + n,
    decreases n,
{
    if n > 0 {
        law_signals_add_up(s, (n - 1) as nat);
    }
}

/// Signaled work requests are neither lost nor counted twice on their way: what an endpoint holds goes
/// to the count of the pass, and at its end to those whose completion is to be polled.
pub proof fn law_signals_are_kept<U>(s: ContextState<U>, slot: usize, e: EndpointState<U>)
    requires
        slot < s.endpoints.len(),
        0 <= s.newly_signaled,
        0 <= e.newly_signaled,
        0 <= s.pending_send_cqes,
        s.pending_send_cqes + s.newly_signaled + e.newly_signaled <= u32::MAX,
    ensures
        ({
            let t = s.tallied(slot, e);
            &&& t.newly_signaled == s.newly_signaled + e.newly_signaled
            &&& t.endpoints[slot as int].newly_signaled == 0
            &&& t.endpoints[slot as int].unsignaled == e.unsignaled
            &&& t.pending_send_cqes == s.pending_send_cqes
        }),
        ({
            let (t, step) = s.flush_end();
            &&& t.pending_send_cqes == s.pending_send_cqes + s.newly_signaled
            &&& t.newly_signaled == 0
            &&& t.endpoints == s.endpoints
        }),
{
}

} // verus!
