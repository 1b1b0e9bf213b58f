//! What holds of responses over a run of completions.

use vstd::prelude::*;

use crate::cq::Cqe;
use crate::dc::shared::ContextState;
use crate::dc::state::EndpointState;
use crate::encoding::WRAP_MESSAGE_COUNT;
use crate::inbound::{
    law_batch_answers_once, lemma_settle_behind, lemma_settle_inside, Response,
};
use crate::message::{lemma_messages_end_grows, Format};
use crate::poll::Completion;

verus! {

/// The calls that a completion ends: of each, where its endpoint stands, and its key.
pub open spec fn ended_by<U>(s: ContextState<U>, cqe: Cqe, recv_ring: Seq<u8>) -> Seq<(
    usize,
    usize,
)> {
    match s.target(cqe) {
        Some(slot) => {
            let e = s.endpoints[slot as int];
            if e.recv_count(recv_ring) == WRAP_MESSAGE_COUNT {
                Seq::empty()
            } else {
                let keys = e.arrival(recv_ring).ended(e.pending, e.recv_count(recv_ring) as nat);
                Seq::new(keys.len(), |i: int| (slot, keys[i]))
            }
        },
        None => Seq::empty(),
    }
}

/// The calls that the first `n` of some completions end.
pub open spec fn ended_by_all<U>(
    s: ContextState<U>,
    completions: Seq<Completion>,
    n: nat,
) -> Seq<(usize, usize)>
    decreases n,
{
    if n == 0 {
        Seq::empty()
    } else {
        let c = completions[n - 1];
        ended_by_all(s, completions, (n - 1) as nat) + ended_by(
            s.polled(completions, (n - 1) as nat),
            c.cqe,
            c.recv_ring@,
        )
    }
}

/// `calls` name, one for one, the calls that `responses` are for: different calls, all in progress in
/// `s`, none in progress in `t`. The other calls are in progress in `t` with their user data.
pub open spec fn answers_once<U>(
    s: ContextState<U>,
    t: ContextState<U>,
    calls: Seq<(usize, usize)>,
    responses: Seq<Response<U>>,
) -> bool {
    &&& calls.no_duplicates()
    &&& calls.len() == responses.len()
    &&& t.endpoints.len() == s.endpoints.len()
    &&& forall|i: int|
        0 <= i < calls.len() ==> {
            let (slot, key) = #[trigger] calls[i];
            &&& slot < s.endpoints.len()
            &&& s.endpoints[slot as int].pending.contains_key(key)
            &&& !t.endpoints[slot as int].pending.contains_key(key)
            &&& responses[i].endpoint == slot
            &&& responses[i].user_data == s.endpoints[slot as int].pending[key]
        }
    &&& forall|slot: usize, key: usize|
        slot < s.endpoints.len() ==> (#[trigger] t.endpoints[slot as int].pending.contains_key(key)
            <==> s.endpoints[slot as int].pending.contains_key(key) && !calls.contains(
            (slot, key),
        ))
    &&& forall|slot: usize, key: usize|
        slot < s.endpoints.len() && #[trigger] t.endpoints[slot as int].pending.contains_key(key)
            ==> t.endpoints[slot as int].pending[key] == s.endpoints[slot as int].pending[key]
}

/// One completion answers each call at most once.
#[verifier::rlimit(50)]
proof fn lemma_completion_answers_once<U>(s: ContextState<U>, cqe: Cqe, recv_ring: Seq<u8>)
    requires
        s.wf(),
    ensures
        answers_once(
            s,
            s.processed(cqe, recv_ring),
            ended_by(s, cqe, recv_ring),
            s.responses(cqe, recv_ring),
        ),
{
    let t = s.processed(cqe, recv_ring);
    let calls = ended_by(s, cqe, recv_ring);
    if let Some(slot) = s.target(cqe) {
        let e = s.endpoints[slot as int];
        if e.recv_count(recv_ring) != WRAP_MESSAGE_COUNT {
            let n = e.recv_count(recv_ring) as nat;
            let keys = e.arrival(recv_ring).ended(e.pending, n);
            
            law_batch_answers_once(e.arrival(recv_ring), slot, e.local.endpoint_id, e.pending, s.stack, n);
            law_batch_answers_once(
                e.arrival(recv_ring),
                slot,
                e.local.endpoint_id,
                e.pending,
                Seq::empty(),
                n,
            );
            assert forall|i: int, j: int|
                0 <= i < calls.len() && 0 <= j < calls.len() && i != j implies calls[i]
                != calls[j] by {
                assert(keys[i] != keys[j]);
            }
            assert forall|at: usize, key: usize| #[trigger]
                calls.contains((at, key)) <==> at == slot && keys.contains(key) by {
                if calls.contains((at, key)) {
                    let i = calls.index_of((at, key));
                    assert(calls[i] == (at, key));
                    assert(keys[i] == key);
                }
                if at == slot && keys.contains(key) {
                    let i = keys.index_of(key);
                    assert(calls[i] == (at, key));
                }
            }
            assert forall|i: int| 0 <= i < calls.len() implies {
                let (at, key) = #[trigger] calls[i];
                &&& at < s.endpoints.len()
                &&& s.endpoints[at as int].pending.contains_key(key)
                &&& !t.endpoints[at as int].pending.contains_key(key)
                &&& s.responses(cqe, recv_ring)[i].endpoint == at
                &&& s.responses(cqe, recv_ring)[i].user_data
                    == s.endpoints[at as int].pending[key]
            } by {
                assert(calls[i] == (slot, keys[i]));
            }
        }
    }
}

/// What is answered once by one step and once by the next is answered once by both.
#[verifier::rlimit(50)]
proof fn lemma_answers_once_chains<U>(
    s: ContextState<U>,
    t: ContextState<U>,
    u: ContextState<U>,
    first: Seq<(usize, usize)>,
    second: Seq<(usize, usize)>,
    responses: Seq<Response<U>>,
    more: Seq<Response<U>>,
)
    requires
        answers_once(s, t, first, responses),
        answers_once(t, u, second, more),
    ensures
        answers_once(s, u, first + second, responses + more),
{
    let calls = first + second;
    assert forall|i: int, j: int|
        0 <= i < calls.len() && 0 <= j < calls.len() && i != j implies calls[i] != calls[j] by {
        lemma_not_in_both(s, t, u, first, second, responses, more, i, j);
        lemma_not_in_both(s, t, u, first, second, responses, more, j, i);
    }
    assert forall|slot: usize, key: usize| #[trigger]
        calls.contains((slot, key)) <==> first.contains((slot, key)) || second.contains(
            (slot, key),
        ) by {
        if first.contains((slot, key)) {
            let i = first.index_of((slot, key));
            assert(calls[i] == (slot, key));
        }
        if second.contains((slot, key)) {
            let i = second.index_of((slot, key));
            assert(calls[first.len() + i] == (slot, key));
        }
        if calls.contains((slot, key)) {
            let i = calls.index_of((slot, key));
            if i < first.len() {
                assert(first[i] == (slot, key));
            } else {
                assert(second[i - first.len()] == (slot, key));
            }
        }
    }
    assert forall|i: int| 0 <= i < calls.len() implies {
        let (slot, key) = #[trigger] calls[i];
        &&& slot < s.endpoints.len()
        &&& s.endpoints[slot as int].pending.contains_key(key)
        &&& !u.endpoints[slot as int].pending.contains_key(key)
        &&& (responses + more)[i].endpoint == slot
        &&& (responses + more)[i].user_data == s.endpoints[slot as int].pending[key]
    } by {
        let (slot, key) = calls[i];
        if i < first.len() {
            assert(first[i] == calls[i]);
            assert(!t.endpoints[slot as int].pending.contains_key(key));
        } else {
            assert(second[i - first.len()] == calls[i]);
            assert(t.endpoints[slot as int].pending.contains_key(key));
        }
    }
    assert forall|slot: usize, key: usize|
        slot < s.endpoints.len() && #[trigger] u.endpoints[slot as int].pending.contains_key(
            key,
        ) implies u.endpoints[slot as int].pending[key]
        == s.endpoints[slot as int].pending[key] by {
        assert(t.endpoints[slot as int].pending.contains_key(key));
    }
    assert forall|slot: usize, key: usize| slot < s.endpoints.len() implies (
    #[trigger] u.endpoints[slot as int].pending.contains_key(key)
        <==> s.endpoints[slot as int].pending.contains_key(key) && !calls.contains(
        (slot, key),
    )) by {
        assert(t.endpoints[slot as int].pending.contains_key(key)
            <==> s.endpoints[slot as int].pending.contains_key(key) && !first.contains(
            (slot, key),
        ));
        assert(calls.contains((slot, key)) <==> first.contains((slot, key)) || second.contains(
            (slot, key),
        ));
    }
}

/// No call is answered by both of two steps.
proof fn lemma_not_in_both<U>(
    s: ContextState<U>,
    t: ContextState<U>,
    u: ContextState<U>,
    first: Seq<(usize, usize)>,
    second: Seq<(usize, usize)>,
    responses: Seq<Response<U>>,
    more: Seq<Response<U>>,
    i: int,
    j: int,
)
    requires
        answers_once(s, t, first, responses),
        answers_once(t, u, second, more),
        0 <= i < first.len() + second.len(),
        0 <= j < first.len() + second.len(),
    ensures
        i < first.len() && first.len() <= j ==> (first + second)[i] != (first + second)[j],
{
    if i < first.len() && first.len() <= j {
        assert((first + second)[i] == first[i]);
        assert((first + second)[j] == second[j - first.len()]);
    }
}

/// An endpoint stays well when it takes a batch in.
proof fn lemma_received<U>(s: EndpointState<U>, slot: usize, recv_ring: Seq<u8>)
    requires
        s.wf(),
        s.can_receive(recv_ring),
    ensures
        s.received(slot, recv_ring).wf(),
        s.received(slot, recv_ring).local == s.local,
{
    lemma_messages_end_grows(
        Format::Dc,
        recv_ring,
        s.recv_pos + 32,
        0,
        s.recv_count(recv_ring) as nat,
    );
}

/// A context stays well when it takes a completion in.
#[verifier::rlimit(50)]
proof fn lemma_processed<U>(s: ContextState<U>, cqe: Cqe, recv_ring: Seq<u8>)
    requires
        s.wf(),
        s.flushing is None,
        s.can_process(cqe, recv_ring),
        recv_ring.len() <= usize::MAX,
    ensures
        s.processed(cqe, recv_ring).wf(),
{
    let t = s.processed(cqe, recv_ring);
    if let Some(slot) = s.target(cqe) {
        let e = s.endpoints[slot as int];
        assert(s.endpoint_wf(slot as int));
        lemma_received(e, slot, recv_ring);
        let n = e.recv_count(recv_ring) as nat;
        if n != WRAP_MESSAGE_COUNT {
            lemma_settle_behind(
                e.arrival(recv_ring),
                slot,
                e.local.endpoint_id,
                e.pending,
                Seq::<Response<U>>::empty(),
                s.stack,
                n,
            );
            lemma_settle_inside(e.arrival(recv_ring), slot, e.local.endpoint_id, e.pending, n, n);
        }
        assert forall|i: int| 0 <= i < t.endpoints.len() implies #[trigger] t.endpoint_wf(i) by {
            assert(s.endpoint_wf(i));
        }
        assert forall|i: int| 0 <= i < t.stack.len() implies t.message_wf(#[trigger] t.stack[i]) by {
            if i < s.stack.len() {
                assert(t.stack[i] == s.stack[i]);
                assert(s.message_wf(s.stack[i]));
            }
        }
    }
}

/// A call is answered at most once over a run of completions: the responses are for different calls, all
/// of which were in progress before, each has the user data of its call, none of these calls is in
/// progress behind, and the other calls are.
pub proof fn law_polls_answer_once<U>(s: ContextState<U>, completions: Seq<Completion>, n: nat)
    requires
        s.wf(),
        s.flushing is None,
        n <= completions.len(),
        forall|i: int|
            0 <= i < completions.len() ==> (#[trigger] completions[i]).recv_ring@.len()
                <= usize::MAX,
        forall|i: nat| i < n ==> #[trigger] s.can_poll(completions, i),
    ensures
        s.polled(completions, n).wf(),
        s.polled(completions, n).flushing is None,
        answers_once(
            s,
            s.polled(completions, n),
            ended_by_all(s, completions, n),
            s.polled_responses(completions, n),
        ),
    decreases n,
{
    if n > 0 {
        let k = (n - 1) as nat;
        let c = completions[n - 1];
        law_polls_answer_once(s, completions, k);
        let t = s.polled(completions, k);
        assert(s.can_poll(completions, k));
        lemma_processed(t, c.cqe, c.recv_ring@);
        lemma_completion_answers_once(t, c.cqe, c.recv_ring@);
        lemma_answers_once_chains(
            s,
            t,
            s.polled(completions, n),
            ended_by_all(s, completions, k),
            ended_by(t, c.cqe, c.recv_ring@),
            s.polled_responses(completions, k),
            t.responses(c.cqe, c.recv_ring@),
        );
    }
}

} // verus!
