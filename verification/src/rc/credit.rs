//! What holds of credit.
//!
//! The peer's ring has room for what is in flight and for twice the credit that the peer holds: each
//! byte of credit is a byte of a response, and a response may have to skip as many bytes again to
//! start in a new ring cycle.

use vstd::prelude::*;

use crate::arith::least;
use crate::error::{Error, PostOutcome};
use crate::message::{lemma_messages_end_grows, lemma_padded_bounds, Format};
use crate::rc::info::RemoteRingInfo;
use crate::rc::state::{
    allowance_for, lemma_headed, lemma_sent, lemma_wrapped, EndpointState,
};
use crate::rc::step::{flush_start, CallInput, CallStep, ReplyInput, ReplyStep};
use crate::ring::{cycle_rest, lemma_offset_step, lemma_offset_wrap};

verus! {

/// Position up to which the send ring holds batches: the header of an empty batch does not count.
pub open spec fn used_to<U>(s: EndpointState<U>) -> int {
    if s.batch_count == 0 {
        s.meta_pos
    } else {
        s.producer
    }
}

/// The peer's ring has room for what is in flight and for twice the credit that the peer holds.
pub open spec fn within_credit<U>(s: EndpointState<U>) -> bool {
    used_to(s) - s.consumer + 2 * s.reservation <= s.remote_size()
}

/// No wrap waits for the device.
pub open spec fn in_place<U>(s: EndpointState<U>) -> bool {
    s.batch_count == 0 ==> s.producer == s.meta_pos + 32
}

/// A grant is the largest whole number of blocks that the policy and the peer's ring leave room
/// for.
pub proof fn law_grant_is_largest<U>(s: EndpointState<U>, g: int)
    requires
        s.wf(),
        s.remote is Some,
    ensures
        0 <= s.grant(),
        s.grant() % 32 == 0,
        s.reservation + s.grant() <= s.local.max_resp_reservation,
        s.grant() > 0 ==> s.in_flight() + 2 * (s.reservation + s.grant()) <= s.remote_size(),
        0 <= g && g % 32 == 0 && s.reservation + g <= s.local.max_resp_reservation && s.in_flight()
            + 2 * (s.reservation + g) <= s.remote_size() ==> g <= s.grant(),
{
}

/// A new connection leaves at least half of the peer's ring for messages.
pub proof fn law_connect_leaves_half<U>(
    s: EndpointState<U>,
    remote: RemoteRingInfo,
    credit: u64,
)
    requires
        s.wf(),
        s.fresh(),
        remote.valid(),
    ensures
        ({
            let t = s.linked(remote, credit).prepared();
            &&& 2 * t.reservation <= t.remote_size() / 2
            &&& within_credit(t)
            &&& in_place(t)
        }),
{
}

/// Where the peer's receive ring is as large as the send ring, an endpoint sets aside as much as it
/// tells its peer.
pub proof fn law_connect_agrees<U>(s: EndpointState<U>, remote: RemoteRingInfo, credit: u64)
    requires
        s.wf(),
        remote.size == s.len(),
    ensures
        s.linked(remote, credit).reservation == least(
            s.local.max_resp_reservation as int,
            s.len() / 4,
        ),
{
}

/// Sending the open batch, with the credit that goes with it, stays within credit, whatever the device
/// says.
pub proof fn law_flush_stays_within_credit<U>(s: EndpointState<U>)
    requires
        s.wf(),
        s.open_batch(),
        within_credit(s),
    ensures
        within_credit(flush_start(s).0),
        s.batch_count > 0 ==> within_credit(s.filled().sent().rung()),
        within_credit(s.filled().refused()),
{
    law_grant_is_largest(s, 0);
}

/// A wrap that has room beside the credit that the peer holds stays within credit, with the credit that
/// goes with it.
proof fn lemma_wrap_within<U>(s: EndpointState<U>)
    requires
        s.wf(),
        s.open_batch(),
        s.batch_count == 0,
        s.wrap_fits(2 * s.reservation),
    ensures
        within_credit(s.wrapped().sent()),
{
    let t = EndpointState { producer: s.cycle_end(), ..s };
    lemma_offset_wrap(s.meta_pos, s.len());
    assert(t.grant() > 0 ==> t.in_flight() + 2 * (t.reservation + t.grant()) <= t.remote_size());
}

/// Taking in a batch stays within credit.
pub proof fn law_receive_stays_within_credit<U>(
    s: EndpointState<U>,
    recv_ring: Seq<u8>,
    imm: u32,
)
    requires
        s.wf(),
        within_credit(s),
        s.can_receive(recv_ring, imm),
    ensures
        within_credit(s.received(recv_ring, imm)),
{
}

/// A call that is placed or refused stays within credit.
#[verifier::rlimit(50)]
proof fn lemma_places_within<U>(
    input: CallInput<U>,
    pre: EndpointState<U>,
    post: EndpointState<U>,
    step: CallStep<U>,
)
    requires
        pre.remote is Some,
        pre.wf(),
        within_credit(pre),
        input.places(pre, post, step),
    ensures
        within_credit(post),
        step matches CallStep::Post(p) ==> {
            &&& p.stage is SpaceFlush
            &&& within_credit(post.sent().rung())
            &&& within_credit(post.refused())
        },
{
    law_grant_is_largest(pre, 0);
    lemma_padded_bounds(Format::Rc, input.data.len() as int);
}

/// A call that goes into the next ring cycle stays within credit.
#[verifier::rlimit(50)]
proof fn lemma_skips_within<U>(
    input: CallInput<U>,
    pre: EndpointState<U>,
    post: EndpointState<U>,
    step: CallStep<U>,
)
    requires
        pre.wf(),
        pre.open_batch(),
        pre.batch_count == 0,
        within_credit(pre),
        pre.meta_pos + pre.len() <= u64::MAX,
        input.skips(pre, post, step),
    ensures
        within_credit(post),
        step matches CallStep::Post(p) ==> {
            &&& p.stage is Wrap
            &&& within_credit(post.sent())
            &&& within_credit(post.refused())
            &&& post.remote is Some
            &&& post.wf()
            &&& post.open_batch()
            &&& post.producer <= pre.meta_pos + pre.len()
        },
{
    if pre.wrap_fits(2 * pre.reservation) {
        lemma_wrap_within(pre);
        lemma_wrapped(pre);
    }
}

/// Every stretch of a call stays within credit, whatever the device says and however the call ends:
/// taken, refused for want of credit or of room, with or without a wrap, or failed.
#[verifier::rlimit(50)]
pub proof fn law_call_stays_within_credit<U>(
    input: CallInput<U>,
    pre: EndpointState<U>,
    post: EndpointState<U>,
    step: CallStep<U>,
    outcome: PostOutcome,
    next: EndpointState<U>,
    next_step: CallStep<U>,
    next_outcome: PostOutcome,
    last: EndpointState<U>,
    last_step: CallStep<U>,
)
    requires
        pre.wf(),
        pre.open_batch(),
        pre.producer + 2 * pre.len() + 96 <= u64::MAX,
        within_credit(pre),
        input.starts(pre, post, step),
    ensures
        within_credit(post),
        step matches CallStep::Post(p) ==> (input.resumes(p.stage, outcome, post, next, next_step)
            ==> {
            &&& within_credit(next)
            &&& next_step matches CallStep::Post(q) ==> (input.resumes(
                q.stage,
                next_outcome,
                next,
                last,
                last_step,
            ) ==> within_credit(last))
        }),
{
    lemma_offset_wrap(pre.meta_pos, pre.len());
    if pre.peer_credit < input.allowance {
        law_flush_stays_within_credit(pre);
    } else if !pre.wrap_due(input.size()) {
        lemma_places_within(input, pre, post, step);
    } else if pre.batch_count > 0 {
        law_flush_stays_within_credit(pre);
        lemma_headed(pre, pre.batch_count as u32);
        lemma_sent(pre.filled());
        if step matches CallStep::Post(p) && outcome is Posted && input.resumes(
            p.stage,
            outcome,
            post,
            next,
            next_step,
        ) {
            let s = pre.filled().sent();
            lemma_skips_within(input, s, next, next_step);
            if next_step matches CallStep::Post(q) && q.stage is Wrap && next_outcome is Posted
                && input.resumes(q.stage, next_outcome, next, last, last_step) {
                lemma_sent(next);
                lemma_places_within(input, next.sent(), last, last_step);
            }
        }
    } else {
        lemma_skips_within(input, pre, post, step);
        if step matches CallStep::Post(p) && p.stage is Wrap && outcome is Posted && input.resumes(
            p.stage,
            outcome,
            post,
            next,
            next_step,
        ) {
            lemma_sent(post);
            lemma_places_within(input, post.sent(), next, next_step);
        }
    }
}

/// The bytes that a call sets aside cover every response up to the length that the caller asked for,
/// also where the response has to skip to a new ring cycle.
pub proof fn law_allowance_covers_response(response_allowance: u64, len: int)
    requires
        0 <= len <= response_allowance,
    ensures
        32 + Format::Rc.padded(len) <= allowance_for(response_allowance as int),
        allowance_for(response_allowance as int) % 32 == 0,
{
}

/// The bytes that a reply skips in the open batch, which is empty, are no more than it takes itself, or
/// they have room beside the credit that the peer holds, or the reply needs no skip.
pub open spec fn skip_is_covered<U>(input: ReplyInput, s: EndpointState<U>) -> bool {
    ||| cycle_rest(s.meta_pos, s.len()) <= 32 + input.size()
    ||| s.wrap_fits(2 * s.reservation)
    ||| !s.wrap_due(input.size())
}

/// A reply that goes into the next ring cycle is taken, where the device takes the wrap, and stays
/// within credit.
#[verifier::rlimit(50)]
proof fn lemma_reply_skips<U>(input: ReplyInput, s: EndpointState<U>)
    requires
        s.wf(),
        s.open_batch(),
        s.batch_count == 0,
        skip_is_covered(input, s),
        s.meta_pos + s.len() + 32 <= u64::MAX,
        within_credit(s),
        32 + input.size() <= input.response_allowance <= s.reservation,
    ensures
        ({
            let (t, step) = input.skip(s);
            match step {
                ReplyStep::Done(r) => r is Ok && within_credit(t),
                ReplyStep::Post { stage, wqe } => {
                    &&& stage is Wrap
                    &&& within_credit(t.refused())
                    &&& within_credit(input.placed(t.sent()))
                },
            }
        }),
{
    lemma_padded_bounds(Format::Rc, input.data.len() as int);
    lemma_offset_wrap(s.meta_pos, s.len());
    let t = EndpointState { producer: s.cycle_end(), ..s };
    assert(t.grant() > 0 ==> t.in_flight() + 2 * (t.reservation + t.grant()) <= t.remote_size());
}

/// A reply always has space. Where a connection is within credit, and the response takes no more
/// than was set aside for it out of the credit that the peer holds, the reply is taken, and leaves
/// the connection within credit, also where it has to start a new ring cycle. Where the device
/// refuses a work request, the reply fails for that alone, and the connection stays within credit.
/// Where the device has refused a wrap before, the reply has to find that wrap covered.
#[verifier::rlimit(50)]
pub proof fn law_reply_has_space<U>(
    input: ReplyInput,
    pre: EndpointState<U>,
    outcome: PostOutcome,
    next_outcome: PostOutcome,
)
    requires
        pre.wf(),
        pre.open_batch(),
        in_place(pre) || skip_is_covered(input, pre),
        within_credit(pre),
        input.data.len() <= u32::MAX,
        32 + input.size() <= input.response_allowance <= pre.reservation,
        pre.producer + 2 * pre.len() + 128 <= u64::MAX,
    ensures
        ({
            let (s1, step1) = input.start(pre);
            match step1 {
                ReplyStep::Done(r) => r is Ok && within_credit(s1),
                ReplyStep::Post { stage, wqe } => {
                    let (s2, step2) = input.resume(stage, outcome, s1);
                    &&& within_credit(s2)
                    &&& match step2 {
                        ReplyStep::Done(r) => if outcome is Posted {
                            r is Ok
                        } else {
                            r == Err::<(), Error>(Error::Io)
                        },
                        ReplyStep::Post { stage: stage2, wqe: wqe2 } => {
                            let (s3, step3) = input.resume(stage2, next_outcome, s2);
                            &&& within_credit(s3)
                            &&& step3 == ReplyStep::Done(
                                if next_outcome is Posted {
                                    Ok(())
                                } else {
                                    Err(Error::Io)
                                },
                            )
                        },
                    }
                },
            }
        }),
{
    lemma_padded_bounds(Format::Rc, input.data.len() as int);
    lemma_messages_end_grows(
        Format::Rc,
        pre.ring,
        pre.meta_pos + 32,
        0,
        pre.batch_count as nat,
    );
    if !pre.wrap_due(input.size()) {
        assert(within_credit(input.placed(pre)));
    } else if pre.batch_count == 0 {
        lemma_reply_skips(input, pre);
    } else {
        let s = pre.filled().sent();
        lemma_headed(pre, pre.batch_count as u32);
        lemma_sent(pre.filled());
        law_flush_stays_within_credit(pre);
        lemma_offset_to_end(pre.meta_pos, pre.len(), pre.producer - pre.meta_pos);
        assert(s.meta_pos == pre.producer && s.len() == pre.len());
        lemma_reply_skips(input, s);
    }
}

/// A step that ends at the end of a ring cycle starts the next one.
proof fn lemma_offset_to_end(pos: int, len: int, step: int)
    requires
        0 < len,
        0 <= step,
        pos % len + step <= len,
    ensures
        (pos + step) % len == 0 || cycle_rest(pos + step, len) == len - pos % len - step,
{
    if pos % len + step < len {
        lemma_offset_step(pos, len, step);
    } else {
        lemma_offset_wrap(pos, len);
    }
}

/// Bytes that the peer has not read are not written over: where a connection is within credit, and
/// the peer has read at least as far as it has reported, what lies between its position and the end
/// of the last batch fits into its ring.
pub proof fn law_unread_bytes_are_safe<U, V>(s: EndpointState<U>, r: EndpointState<V>)
    requires
        s.wf(),
        within_credit(s),
        s.consumer <= r.recv_pos,
    ensures
        used_to(s) - r.recv_pos <= s.remote_size(),
{
}

/// The credit that a batch brings is what the sender adds to its reservation when the device has the
/// batch, and what a reply gives back is what the caller set aside.
pub proof fn law_credit_is_conserved<U>(s: EndpointState<U>, input: ReplyInput, message_count: u32)
    requires
        s.wf(),
        0 <= input.response_allowance <= s.reservation,
    ensures
        s.headed(message_count).sent().reservation - s.reservation == s.grant(),
        s.reservation - input.placed(s).reservation == input.response_allowance,
{
}

/// A work request that the device refuses costs nothing: the open batch stays, the peer counts as told
/// and granted no more than before, and the header of the next try gives the same ring space and the
/// same credit. A refused wrap stays at its place, and the next try takes the same bytes.
pub proof fn law_refusal_loses_nothing<U>(s: EndpointState<U>, reserved: int)
    requires
        s.wf(),
        s.open_batch(),
        in_place(s),
    ensures
        ({
            let t = s.filled().refused();
            &&& t.notified == s.notified && t.reservation == s.reservation
            &&& t.producer == s.producer && t.meta_pos == s.meta_pos
            &&& t.flush_start == s.flush_start && t.batch_count == s.batch_count
            &&& t.batch() == s.batch()
            &&& t.filled().told == s.recv_pos - s.notified
            &&& t.filled().granted == s.grant()
            &&& t.filled().sent().notified == s.recv_pos
        }),
        s.batch_count == 0 ==> {
            let t = s.wrapped().refused();
            &&& t.notified == s.notified && t.reservation == s.reservation
            &&& t.meta_pos == s.meta_pos
            &&& t.flush_start == s.flush_start && t.batch_count == s.batch_count
            &&& t.wrap_fits(reserved) == s.wrap_fits(reserved)
            &&& t.wrapped().producer == s.wrapped().producer
            &&& t.wrapped().told == s.recv_pos - s.notified
            &&& t.wrapped().granted == s.wrapped().granted
            &&& t.wrapped().sent().notified == s.recv_pos
        },
{
    lemma_headed(s, s.batch_count as u32);
}

} // verus!
