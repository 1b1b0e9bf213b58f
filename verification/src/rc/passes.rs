//! What holds of a context as a whole.

use vstd::prelude::*;

use crate::cq::Cqe;
use crate::error::PostOutcome;
use crate::rc::shared::{ContextState, EndpointsStep};
use crate::rc::state::EndpointState;
use crate::rc::step::flush_start;

verus! {

/// An endpoint has nothing to send, nothing to tell the device, and stands in no queue.
pub open spec fn at_rest<U>(e: EndpointState<U>) -> bool {
    e.batch_count == 0 && !e.needs_doorbell && !e.is_dirty
}

/// A pass takes the endpoints in the order of the queue and leaves the others alone. It stops at the
/// first one that has something to send or to tell the device, and each one before that is at rest.
/// It is over when the queue is empty.
#[verifier::rlimit(50)]
pub proof fn law_flush_goes_in_order<U>(s: ContextState<U>)
    requires
        s.wf(),
        s.flushing is None,
    ensures
        ({
            let (t, step) = s.flush_walk();
            let k = s.dirty.len() - t.dirty.len();
            &&& 0 <= k
            &&& t.dirty == s.dirty.skip(k)
            &&& t.endpoints.len() == s.endpoints.len()
            &&& forall|i: int|
                0 <= i < s.endpoints.len() && !s.dirty.take(k).contains(i as usize) ==> (
                #[trigger] t.endpoints[i]) == s.endpoints[i]
            &&& match step {
                EndpointsStep::Done => {
                    &&& t.dirty.len() == 0
                    &&& t.flushing is None
                    &&& forall|j: int|
                        0 <= j < k ==> at_rest(t.endpoints[(#[trigger] s.dirty[j]) as int])
                },
                EndpointsStep::Ring { slot } => {
                    &&& 0 < k
                    &&& slot == s.dirty[k - 1]
                    &&& s.endpoints[slot as int].needs_doorbell
                    &&& t.flushing is None
                    &&& forall|j: int|
                        0 <= j < k ==> at_rest(t.endpoints[(#[trigger] s.dirty[j]) as int])
                },
                EndpointsStep::Post { slot, wqe } => {
                    &&& 0 < k
                    &&& slot == s.dirty[k - 1]
                    &&& s.endpoints[slot as int].batch_count > 0
                    &&& t.flushing == Some(slot)
                    &&& t.endpoints[slot as int] == s.endpoints[slot as int].filled()
                    &&& wqe == t.endpoints[slot as int].work_request()
                    &&& forall|j: int|
                        0 <= j < k - 1 ==> at_rest(t.endpoints[(#[trigger] s.dirty[j]) as int])
                },
            }
        }),
    decreases s.dirty.len(),
{
    if s.dirty.len() > 0 {
        let slot = s.dirty[0];
        let rest = ContextState { dirty: s.dirty.drop_first(), ..s };
        let e = flush_start(s.endpoints[slot as int]).0;
        let (t, step) = s.flush_walk();
        let k = s.dirty.len() - t.dirty.len();
        assert(s.endpoint_wf(slot));
        if s.endpoints[slot as int].batch_count > 0 || s.endpoints[slot as int].needs_doorbell {
            assert(t.dirty =~= s.dirty.skip(1));
            assert(s.dirty.take(1)[0] == slot);
        } else {
            let next = rest.flush_over(slot, e);
            crate::rc::shared::lemma_flush_taken(s, e);
            crate::rc::shared::lemma_flush_over(
                ContextState {
                    flushing: Some(slot),
                    ..s.with_endpoint(slot, e, s.dirty.drop_first())
                },
                e,
            );
            assert(next =~= ContextState {
                flushing: Some(slot),
                ..s.with_endpoint(slot, e, s.dirty.drop_first())
            }.flush_over(slot, e));
            law_flush_goes_in_order(next);
            assert(t.dirty =~= s.dirty.skip(k));
            assert(!next.dirty.contains(slot)) by {
                if next.dirty.contains(slot) {
                    let i = next.dirty.index_of(slot);
                    assert(s.dirty[i + 1] == s.dirty[0]);
                }
            }
            let taken = next.dirty.take(k - 1);
            assert forall|i: usize| #[trigger] taken.contains(i) implies s.dirty.take(k).contains(
                i,
            ) by {
                let j = taken.index_of(i);
                assert(s.dirty.take(k)[j + 1] == i);
            }
            assert(!taken.contains(slot)) by {
                if taken.contains(slot) {
                    let j = taken.index_of(slot);
                    assert(next.dirty[j] == slot);
                }
            }
            assert(s.dirty.take(k)[0] == slot);
            assert(t.endpoints[slot as int] == next.endpoints[slot as int]);
            assert forall|j: int| 0 <= j < k - 1 implies next.dirty[j] == (#[trigger] s.dirty[j
                + 1]) by {}
            assert forall|j: int|
                0 <= j < k && (step !is Post || j < k - 1) implies at_rest(
                t.endpoints[(#[trigger] s.dirty[j]) as int],
            ) by {
                if j > 0 {
                    assert(next.dirty[j - 1] == s.dirty[j]);
                }
            }
        }
    } else {
        let t = s.flush_walk().0;
        assert(t.dirty =~= s.dirty.skip(0));
    }
}

/// An endpoint whose batch the device took is at rest, once the device is told.
pub proof fn law_flush_leaves_at_rest<U>(s: ContextState<U>)
    requires
        s.wf(),
        s.flushing is Some,
    ensures
        ({
            let slot = s.flushing->0;
            let (t, step) = s.flush_resume(PostOutcome::Posted);
            &&& step == EndpointsStep::Ring { slot }
            &&& at_rest(t.endpoints[slot as int])
            &&& t.flushing is None
            &&& t.dirty == s.dirty
        }),
{
}

/// A new endpoint is found by its QP number, and the others are found as before.
pub proof fn law_qpn_finds_endpoint<U>(s: ContextState<U>, e: EndpointState<U>, cqe: Cqe)
    requires
        s.wf(),
        !cqe.failed(),
    ensures
        cqe.qp_num == e.local.qpn ==> s.joined(e).target(cqe) == Some(e.local.slot),
        cqe.qp_num != e.local.qpn ==> s.joined(e).target(cqe) == s.target(cqe),
{
}

/// A completion leaves every endpoint alone but the one that it is for.
pub proof fn law_completion_is_for_one<U>(
    s: ContextState<U>,
    cqe: Cqe,
    recv_ring: Seq<u8>,
    i: int,
)
    requires
        s.wf(),
        0 <= i < s.endpoints.len(),
        s.target(cqe) != Some(i as usize),
        i <= usize::MAX,
    ensures
        s.processed(cqe, recv_ring).endpoints[i] == s.endpoints[i],
{
}

/// Raw reads and writes are counted while they are not complete.
pub proof fn law_raw_is_counted<U>(s: EndpointState<U>)
    ensures
        s.raw_started().raw_pending() == (s.raw_pending() + 1) % 0x1_0000_0000,
        s.raw_finished().raw_pending() == (s.raw_pending() - 1) % 0x1_0000_0000,
        s.raw_started().raw_finished().raw_pending()
            == s.raw_pending(),
{
    lemma_counts(s.raw_posted, s.raw_done);
    lemma_counts(s.raw_posted + 1, s.raw_done);
}

/// Counters of 32 bits keep their difference.
proof fn lemma_counts(posted: int, done: int)
    ensures
        ((posted + 1) % 0x1_0000_0000 - done) % 0x1_0000_0000 == ((posted - done) % 0x1_0000_0000
            + 1) % 0x1_0000_0000,
        (posted - (done + 1) % 0x1_0000_0000) % 0x1_0000_0000 == ((posted - done) % 0x1_0000_0000
            - 1) % 0x1_0000_0000,
        ((posted + 1) % 0x1_0000_0000 - (done + 1) % 0x1_0000_0000) % 0x1_0000_0000 == (posted
            - done) % 0x1_0000_0000,
{
}

/// After `n` more work requests.
pub open spec fn emitted_times<U>(s: EndpointState<U>, n: nat) -> EndpointState<U>
    decreases n,
{
    if n == 0 {
        s
    } else {
        emitted_times(s, (n - 1) as nat).emitted()
    }
}

/// After each 64 work requests that are not signaled there is one that is.
pub proof fn law_signal_interval<U>(s: EndpointState<U>, n: nat)
    requires
        s.unsignaled == 0,
    ensures
        emitted_times(s, n).unsignaled == n % 65,
        emitted_times(s, n).work_request().signaled is Some <==> n % 65 == 64,
    decreases n,
{
    if n > 0 {
        law_signal_interval(s, (n - 1) as nat);
    }
}

} // verus!
