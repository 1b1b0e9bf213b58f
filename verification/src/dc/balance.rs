//! Why two connected endpoints cannot both run out of room for good.
//!
//! Each side keeps room for one more batch header in its peer's ring, and uses it up only to give ring
//! space back. A batch that gives ring space back makes at least as much room for the peer as it takes.
//! So of two sides at most one is left without room once every report of bytes read has come in. This
//! holds from the connection on, whatever the sides do and in whatever order, also where one of them
//! waits for its device.

use vstd::prelude::*;

use crate::dc::info::RemoteEndpointInfo;
use crate::dc::room::{
    has_reserve, in_ring, law_call_leaves_reserve, law_reply_leaves_reserve,
    law_reserve_returns_credit, used_to,
};
use crate::dc::state::EndpointState;
use crate::dc::step::{EmitStage, EmitStep};
use crate::encoding::WRAP_MESSAGE_COUNT;
use crate::error::{CallError, PostOutcome};
use crate::message::{lemma_messages_end_aligned, Format};

verus! {

/// When every report that `b` has sent has come in, `a` has room for one more batch header.
pub open spec fn will_have_reserve<U, V>(a: EndpointState<U>, b: EndpointState<V>) -> bool {
    used_to(a) - b.notified + 32 <= a.remote_size()
}

/// What one side contributes to the balance: the peer's ring holds a batch header and what this side
/// has in use, an open batch with messages leaves room for one more batch header, and `b` has told of
/// all that `a` knows to be read.
pub open spec fn sound_side<U, V>(a: EndpointState<U>, b: EndpointState<V>) -> bool {
    &&& a.remote is Some
    &&& 32 <= a.remote_size()
    &&& in_ring(a)
    &&& a.batch_count > 0 ==> has_reserve(a)
    &&& a.consumer <= b.notified
    &&& a.recv_pos % 32 == 0
    &&& a.notified % 32 == 0
}

/// Two connected endpoints of which at most one will be left without room for a batch header.
pub open spec fn balanced<U, V>(a: EndpointState<U>, b: EndpointState<V>) -> bool {
    &&& sound_side(a, b)
    &&& sound_side(b, a)
    &&& will_have_reserve(a, b) || will_have_reserve(b, a)
}

/// The endpoint has put a batch together and waits for the device to take it.
pub open spec fn waits<U>(s: EndpointState<U>, stage: EmitStage) -> bool {
    &&& s.told == s.unreturned()
    &&& match stage {
        EmitStage::Batch => s.batch_count > 0,
        EmitStage::Wrap { after_batch } => s.batch_count == 0 && s.producer - s.consumer + 32
            <= s.remote_size(),
        EmitStage::CreditReturn => s.batch_count == 0 && s.told > 0 && s.producer - s.consumer
            <= s.remote_size(),
    }
}

/// A stretch of a flush leaves the endpoint at rest, or waiting for the device.
pub open spec fn rests_or_waits<U>(s: EndpointState<U>, step: EmitStep) -> bool {
    step matches EmitStep::Post { stage, wqe } ==> waits(s, stage)
}

/// The balance has no sides: it holds of `b` and `a` where it holds of `a` and `b`.
pub proof fn law_balance_is_mutual<U, V>(a: EndpointState<U>, b: EndpointState<V>)
    ensures
        balanced(a, b) <==> balanced(b, a),
{
}

/// Two endpoints that have just connected are in balance.
pub proof fn law_connect_balances<U, V>(
    a: EndpointState<U>,
    b: EndpointState<V>,
    to_b: RemoteEndpointInfo,
    to_a: RemoteEndpointInfo,
)
    requires
        a.wf(),
        b.wf(),
        a.remote is None,
        b.remote is None,
        a.recv_pos == 0,
        b.recv_pos == 0,
        32 <= to_b.ring().size,
        32 <= to_a.ring().size,
    ensures
        balanced(a.linked(to_b), b.linked(to_a)),
{
}

/// A call keeps the balance, whether it is taken or not.
pub proof fn law_call_keeps_balance<U, V>(
    a: EndpointState<U>,
    b: EndpointState<V>,
    data: Seq<u8>,
    user_data: U,
    post: EndpointState<U>,
    r: Result<u32, CallError<U>>,
)
    requires
        a.wf(),
        balanced(a, b),
        a.calls(data, user_data, post, r),
    ensures
        balanced(post, b),
{
    law_call_leaves_reserve(a, data, user_data, post, r);
}

/// A reply keeps the balance, whether it is taken or not.
pub proof fn law_reply_keeps_balance<U, V>(
    a: EndpointState<U>,
    b: EndpointState<V>,
    call_id: u32,
    data: Seq<u8>,
)
    requires
        a.wf(),
        balanced(a, b),
    ensures
        balanced(a.replied(call_id, data).0, b),
{
    law_reply_leaves_reserve(a, call_id, data);
}

/// The stretch behind the open batch keeps the balance.
#[verifier::rlimit(50)]
proof fn lemma_tail_keeps_balance<U, V>(a: EndpointState<U>, b: EndpointState<V>, emitted: bool)
    requires
        balanced(a, b),
        a.batch_count == 0,
        a.producer == a.meta_pos + 32 || a.wrap_pending && a.wrap_fits(),
        a.notified <= a.recv_pos,
    ensures
        ({
            let (s, step) = a.emit_tail(emitted);
            balanced(s, b) && rests_or_waits(s, step)
        }),
{
    let s = a.emit_tail(emitted).0;
    assert(used_to(s) == used_to(a));
}

/// The first stretch of a flush keeps the balance.
#[verifier::rlimit(50)]
pub proof fn law_flush_start_keeps_balance<U, V>(a: EndpointState<U>, b: EndpointState<V>)
    requires
        a.wf(),
        balanced(a, b),
    ensures
        ({
            let (s, step) = a.emit_start();
            balanced(s, b) && rests_or_waits(s, step)
        }),
{
    if a.batch_count > 0 {
        assert(used_to(a.filled()) == used_to(a));
    } else {
        lemma_tail_keeps_balance(a, b, false);
    }
}

/// A flush that goes on when the device has answered keeps the balance, whatever the device said. Ring
/// space that is given back makes at least as much room for the peer as its batch takes.
#[verifier::rlimit(50)]
pub proof fn law_flush_resume_keeps_balance<U, V>(
    a: EndpointState<U>,
    b: EndpointState<V>,
    stage: EmitStage,
    outcome: PostOutcome,
)
    requires
        a.wf(),
        balanced(a, b),
        waits(a, stage),
    ensures
        ({
            let (s, step) = a.emit_resume(stage, outcome);
            balanced(s, b) && rests_or_waits(s, step)
        }),
{
    if outcome is Posted {
        let sent = a.sent();
        assert(used_to(sent) == a.producer);
        assert(sent.notified == a.recv_pos);
        if stage is CreditReturn {
            assert(a.told >= 32);
            assert(will_have_reserve(b, sent));
        } else {
            assert(has_reserve(sent));
        }
        assert(balanced(sent, b));
        if stage is Batch {
            lemma_tail_keeps_balance(sent, b, true);
        }
    } else {
        assert(used_to(a.refused()) == used_to(a));
        assert(balanced(a.refused(), b));
    }
}

/// Taking in a batch keeps the balance: it changes nothing of what was told. The batch reports no more
/// than the peer has told, and where it is a wrap, it covers whole header sizes.
pub proof fn law_receive_keeps_balance<U, V>(
    a: EndpointState<U>,
    b: EndpointState<V>,
    slot: usize,
    recv_ring: Seq<u8>,
)
    requires
        a.wf(),
        balanced(a, b),
        a.can_receive(recv_ring),
        a.received(slot, recv_ring).consumer <= b.notified,
        a.recv_count(recv_ring) == WRAP_MESSAGE_COUNT ==> a.recv_delta(recv_ring) % 32 == 0,
    ensures
        balanced(a.received(slot, recv_ring), b),
{
    lemma_messages_end_aligned(
        Format::Dc,
        recv_ring,
        a.recv_pos + 32,
        a.recv_count(recv_ring) as nat,
    );
}

/// Two sides are never both stuck. Where everything that was sent has been read and every report has
/// come in, at least one side has room for one more batch header. Where the other one, `b`, has none,
/// `a` has ring space to give back, its flush posts a batch that does so, and that batch reports all
/// that `b` has in use as read.
#[verifier::rlimit(50)]
pub proof fn law_never_both_stuck<U, V>(a: EndpointState<U>, b: EndpointState<V>)
    requires
        a.wf(),
        b.wf(),
        balanced(a, b),
        a.recv_pos == b.flush_start,
        b.recv_pos == a.flush_start,
        a.consumer == b.notified,
        b.consumer == a.notified,
    ensures
        has_reserve(a) || has_reserve(b),
        !has_reserve(b) ==> {
            &&& has_reserve(a)
            &&& a.unreturned() > 0
            &&& a.emit_start().1 is Post
            &&& b.consumer + a.emit_start().0.told == used_to(b)
        },
{
    if !has_reserve(b) {
        assert(used_to(b) == b.flush_start);
        assert(a.unreturned() == used_to(b) - b.consumer);
        law_reserve_returns_credit(a);
    }
}

} // verus!
