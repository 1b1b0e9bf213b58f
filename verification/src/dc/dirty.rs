//! The queue of endpoints to flush.

use vstd::prelude::*;

verus! {

/// Stands where no endpoint number does.
pub const DIRTY_NONE: u32 = 0xffff_ffff;

/// A queue of endpoint numbers in which no number stands twice. Each number has a place of its own,
/// which names the number behind it.
pub struct DirtyEndpointList {
    head: u32,
    tail: u32,
    next: Vec<u32>,
    in_list: Vec<bool>,
    order: Ghost<Seq<u32>>,
}

impl View for DirtyEndpointList {
    type V = Seq<u32>;

    /// The numbers in the queue, the first one first.
    closed spec fn view(&self) -> Seq<u32> {
        self.order@
    }
}

impl DirtyEndpointList {
    /// The links spell the queue.
    pub closed spec fn wf(self) -> bool {
        let q = self.order@;
        &&& self.next@.len() == self.in_list@.len()
        &&& self.next@.len() <= u32::MAX
        &&& q.no_duplicates()
        &&& forall|i: int| 0 <= i < q.len() ==> (#[trigger] q[i]) < self.next@.len()
        &&& forall|i: int|
            0 <= i < q.len() ==> self.next@[(#[trigger] q[i]) as int] == link(q, i + 1)
        &&& forall|x: u32|
            x < self.next@.len() ==> (#[trigger] self.in_list@[x as int] <==> q.contains(x))
        &&& self.head == link(q, 0)
        &&& self.tail == link(q, q.len() - 1)
    }

    /// Of each place, the number that stands behind its own in the queue.
    pub closed spec fn links(self) -> Seq<u32> {
        self.next@
    }

    /// Of each place, whether its number stands in the queue.
    pub closed spec fn marks(self) -> Seq<bool> {
        self.in_list@
    }

    /// The first and the last number.
    pub closed spec fn ends(self) -> (u32, u32) {
        (self.head, self.tail)
    }

    /// A number has a place.
    pub open spec fn has_slot(self, endpoint_id: u32) -> bool {
        endpoint_id < self.links().len()
    }

    /// As many places, with what they hold, and as many empty ones behind them as a number needs.
    pub open spec fn has_places_of(self, before: Self, endpoint_id: u32) -> bool {
        let n = before.links().len();
        &&& self.links().len() == (if endpoint_id < n {
            n as int
        } else {
            endpoint_id + 1
        })
        &&& self.marks().len() == self.links().len()
        &&& forall|i: int| 0 <= i < n ==> (#[trigger] self.links()[i]) == before.links()[i]
        &&& forall|i: int| 0 <= i < n ==> (#[trigger] self.marks()[i]) == before.marks()[i]
        &&& forall|i: int|
            n <= i < self.links().len() ==> (#[trigger] self.links()[i]) == 0xffff_ffff
        &&& forall|i: int| n <= i < self.links().len() ==> !(#[trigger] self.marks()[i])
    }

    /// A queue without numbers and without places.
    pub fn new() -> (r: Self)
        ensures
            r.wf(),
            r@ == Seq::<u32>::empty(),
            r.links() == Seq::<u32>::empty(),
            r.marks() == Seq::<bool>::empty(),
    {
        DirtyEndpointList {
            head: DIRTY_NONE,
            tail: DIRTY_NONE,
            next: Vec::new(),
            in_list: Vec::new(),
            order: Ghost(Seq::empty()),
        }
    }

    /// Makes a place for a number.
    pub fn ensure_slot(&mut self, endpoint_id: u32)
        requires
            old(self).wf(),
            endpoint_id < u32::MAX,
        ensures
            final(self).wf(),
            final(self)@ == old(self)@,
            final(self).has_slot(endpoint_id),
            final(self).ends() == old(self).ends(),
            final(self).has_places_of(*old(self), endpoint_id),
    {
        let idx: usize = endpoint_id as usize;
        if idx >= self.next.len() {
            self.next.resize(idx + 1, DIRTY_NONE);
            self.in_list.resize(idx + 1, false);
            proof {
                let n = old(self).next@.len() as int;
                let q = self.order@;
                assert forall|i: int| 0 <= i < n implies self.next@[i] == old(self).next@[i] by {
                    assert(self.next@.subrange(0, n)[i] == self.next@[i]);
                }
                assert forall|i: int| 0 <= i < n implies self.in_list@[i]
                    == old(self).in_list@[i] by {
                    assert(self.in_list@.subrange(0, n)[i] == self.in_list@[i]);
                }
                assert forall|x: u32| x < self.next@.len() implies (#[trigger] self.in_list@[x as int]
                    <==> q.contains(x)) by {
                    if x >= n {
                        if q.contains(x) {
                            let k = q.index_of(x);
                            assert(q[k] == x);
                        }
                    }
                }
            }
        }
    }

    /// Puts a number at the end, unless it stands in the queue.
    pub fn push_back(&mut self, endpoint_id: u32)
        requires
            old(self).wf(),
            endpoint_id < u32::MAX,
        ensures
            final(self).wf(),
            final(self)@ == (if old(self)@.contains(endpoint_id) {
                old(self)@
            } else {
                old(self)@.push(endpoint_id)
            }),
            final(self).has_slot(endpoint_id),
            old(self).links().len() <= final(self).links().len(),
            final(self).links().len() == old(self).links().len() || final(self).links().len()
                == endpoint_id + 1,
            final(self).marks().len() == final(self).links().len(),
            final(self).marks()[endpoint_id as int],
            forall|i: int|
                0 <= i < old(self).marks().len() && i != endpoint_id ==> (
                #[trigger] final(self).marks()[i]) == old(self).marks()[i],
    {
        self.ensure_slot(endpoint_id);
        let idx: usize = endpoint_id as usize;
        if self.in_list[idx] {
            return ;
        }
        let ghost before = *self;
        let ghost q = self.order@;
        let ghost p = q.push(endpoint_id);
        self.in_list.set(idx, true);
        self.next.set(idx, DIRTY_NONE);
        if self.tail == DIRTY_NONE {
            self.head = endpoint_id;
            self.tail = endpoint_id;
        } else {
            let tail_idx: usize = self.tail as usize;
            assert(q.len() > 0 ==> q[q.len() - 1] == self.tail);
            self.next.set(tail_idx, endpoint_id);
            self.tail = endpoint_id;
        }
        proof {
            self.order@ = p;
            assert forall|i: int| 0 <= i < p.len() implies self.next@[(#[trigger] p[i]) as int]
                == link(p, i + 1) by {
                if i < q.len() {
                    assert(p[i] == q[i]);
                    assert(q[i] != endpoint_id);
                    if i < q.len() - 1 {
                        assert(q[i] != q[q.len() - 1]);
                    }
                }
            }
            assert forall|x: u32| x < self.next@.len() implies (#[trigger] self.in_list@[x as int]
                <==> p.contains(x)) by {
                if x == endpoint_id {
                    assert(p[q.len() as int] == x);
                } else {
                    if q.contains(x) {
                        let k = q.index_of(x);
                        assert(p[k] == x);
                    }
                    if p.contains(x) {
                        let k = p.index_of(x);
                        assert(q[k] == x);
                    }
                }
            }
        }
    }

    /// Takes the first number.
    pub fn pop_front(&mut self) -> (r: Option<u32>)
        requires
            old(self).wf(),
        ensures
            final(self).wf(),
            match r {
                Some(endpoint_id) => {
                    &&& 0 < old(self)@.len()
                    &&& endpoint_id == old(self)@[0]
                    &&& final(self)@ == old(self)@.drop_first()
                    &&& old(self).has_slot(endpoint_id)
                    &&& final(self).links() == old(self).links().update(
                        endpoint_id as int,
                        0xffff_ffff,
                    )
                    &&& final(self).marks() == old(self).marks().update(endpoint_id as int, false)
                },
                None => {
                    &&& old(self)@.len() == 0
                    &&& final(self)@ == old(self)@
                    &&& final(self).links() == old(self).links()
                    &&& final(self).marks() == old(self).marks()
                    &&& final(self).ends() == old(self).ends()
                },
            },
            final(self).links().len() == old(self).links().len(),
            final(self).marks().len() == old(self).marks().len(),
            old(self).marks().len() == old(self).links().len(),
    {
        if self.head == DIRTY_NONE {
            return None;
        }
        let ghost q = self.order@;
        let ghost p = q.drop_first();
        let endpoint_id: u32 = self.head;
        let idx: usize = endpoint_id as usize;
        assert(q.len() > 0 && q[0] == endpoint_id);
        self.head = self.next[idx];
        if self.head == DIRTY_NONE {
            self.tail = DIRTY_NONE;
        }
        self.next.set(idx, DIRTY_NONE);
        self.in_list.set(idx, false);
        proof {
            self.order@ = p;
            if q.len() > 1 {
                assert(q[1] < self.next@.len());
            }
            assert forall|i: int| 0 <= i < p.len() implies self.next@[(#[trigger] p[i]) as int]
                == link(p, i + 1) && p[i] < self.next@.len() by {
                assert(p[i] == q[i + 1]);
                assert(q[i + 1] != q[0]);
            }
            assert forall|i: int, j: int|
                0 <= i < p.len() && 0 <= j < p.len() && i != j implies p[i] != p[j] by {
                assert(q[i + 1] != q[j + 1]);
            }
            assert forall|x: u32| x < self.next@.len() implies (#[trigger] self.in_list@[x as int]
                <==> p.contains(x)) by {
                if x == endpoint_id {
                    if p.contains(x) {
                        let k = p.index_of(x);
                        assert(q[k + 1] == q[0]);
                    }
                } else {
                    if q.contains(x) {
                        let k = q.index_of(x);
                        assert(p[k - 1] == x);
                    }
                    if p.contains(x) {
                        let k = p.index_of(x);
                        assert(q[k + 1] == x);
                    }
                }
            }
        }
        Some(endpoint_id)
    }

    /// Tells whether the queue holds no number.
    pub fn is_empty(&self) -> (r: bool)
        requires
            self.wf(),
        ensures
            r == (self@.len() == 0),
    {
        proof {
            if self.order@.len() > 0 {
                assert(self.order@[0] < self.next@.len());
            }
        }
        self.head == DIRTY_NONE
    }
}

/// The places, their links and marks and the two ends spell the queue `q`: no number stands in it twice,
/// each has a place, a place is marked if and only if its number stands in the queue, its link names the
/// number behind its own or none, and the ends name the first and the last number, or none where the
/// queue is empty.
pub open spec fn spells(links: Seq<u32>, marks: Seq<bool>, ends: (u32, u32), q: Seq<u32>) -> bool {
    &&& links.len() == marks.len()
    &&& q.no_duplicates()
    &&& forall|k: int| 0 <= k < q.len() ==> (#[trigger] q[k]) < links.len()
    &&& forall|x: u32| x < marks.len() ==> (#[trigger] marks[x as int] <==> q.contains(x))
    &&& q.len() == 0 <==> ends.0 == DIRTY_NONE
    &&& q.len() == 0 <==> ends.1 == DIRTY_NONE
    &&& 0 < q.len() ==> {
        &&& ends.0 == q.first()
        &&& ends.1 == q.last()
        &&& links[ends.1 as int] == DIRTY_NONE
    }
    &&& forall|k: int|
        0 <= k < q.len() - 1 ==> #[trigger] links[q[k] as int] == q[k + 1]
}

/// The links spell the queue, always: every list is made so, and every operation keeps it so.
pub proof fn law_links_spell_queue(l: DirtyEndpointList)
    requires
        l.wf(),
    ensures
        spells(l.links(), l.marks(), l.ends(), l@),
{
    let q = l.order@;
    if 0 < q.len() {
        assert(q[0] < l.next@.len());
        assert(q[q.len() - 1] < l.next@.len());
    }
}

/// The number at place `i` of a queue, or what stands for none.
spec fn link(q: Seq<u32>, i: int) -> u32 {
    if 0 <= i < q.len() {
        q[i]
    } else {
        0xffff_ffff
    }
}

} // verus!
