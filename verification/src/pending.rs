//! Calls that wait for a response.

use slab::Slab;
use vstd::prelude::*;

verus! {

/// The slab that hands out call identifiers.
#[verifier::external_type_specification]
#[verifier::external_body]
#[verifier::reject_recursive_types(T)]
pub struct ExSlab<T>(slab::Slab<T>);

/// The keys in use in a slab.
pub uninterp spec fn slab_keys(slab: Slab<()>) -> Set<usize>;

/// The number of slots that a slab has filled at some time. Every key in use is below it.
pub uninterp spec fn slab_slots(slab: Slab<()>) -> nat;

/// Slots after one more key came into use, where `used` keys were in use: a slot is added only where
/// none is free.
pub open spec fn slots_after(slots: nat, used: nat) -> nat {
    if used == slots {
        slots + 1
    } else {
        slots
    }
}

/// Calls `slab::Slab::new`, which makes a slab with no key in use and no slots.
#[verifier::external_body]
fn slab_new() -> (slab: Slab<()>)
    ensures
        slab_keys(slab) == Set::<usize>::empty(),
        slab_slots(slab) == 0,
{
    Slab::new()
}

/// Calls `slab::Slab::insert`, which puts a key into use that was not, and returns it. The key
/// stands for a free slot, or for a new slot behind the others where all are taken. Which free slot
/// it is depends on the order in which keys were given back, and is left open. The slab keeps at most
/// sixteen bytes for each slot and panics where these outgrow the address space, which the limit on
/// the number of keys rules out.
#[verifier::external_body]
fn slab_insert(slab: &mut Slab<()>) -> (key: usize)
    requires
        slab_keys(*old(slab)).len() < usize::MAX / 128,
    ensures
        !slab_keys(*old(slab)).contains(key),
        slab_keys(*final(slab)) == slab_keys(*old(slab)).insert(key),
        slab_slots(*final(slab)) == slots_after(
            slab_slots(*old(slab)),
            slab_keys(*old(slab)).len(),
        ),
        key < slab_slots(*final(slab)),
{
    slab.insert(())
}

/// Calls `slab::Slab::try_remove`, which takes a key out of use where it is in use, and tells
/// whether it was. Its slot stays, to be filled again.
#[verifier::external_body]
fn slab_try_remove(slab: &mut Slab<()>, key: usize) -> (item: Option<()>)
    ensures
        item is Some <==> slab_keys(*old(slab)).contains(key),
        slab_keys(*final(slab)) == slab_keys(*old(slab)).remove(key),
        slab_slots(*final(slab)) == slab_slots(*old(slab)),
{
    slab.try_remove(key)
}

/// Calls `slab::Slab::len`, which counts the keys in use.
#[verifier::external_body]
fn slab_len(slab: &Slab<()>) -> (n: usize)
    ensures
        n == slab_keys(*slab).len(),
{
    slab.len()
}

/// The user data of the calls in progress, each under the key that is its call identifier.
pub struct PendingCalls<U> {
    keys: Slab<()>,
    values: Vec<Option<U>>,
}

impl<U> PendingCalls<U> {
    /// Exactly the keys in use have a value.
    pub closed spec fn wf(self) -> bool {
        &&& self@.dom() == slab_keys(self.keys)
        &&& slab_keys(self.keys).finite()
        &&& forall|k: usize| #[trigger]
            slab_keys(self.keys).contains(k) ==> k < slab_slots(self.keys)
        &&& forall|k: usize|
            #![trigger slab_keys(self.keys).contains(k)]
            #![trigger self.values@[k as int]]
            slab_keys(self.keys).contains(k) <==> k < self.values@.len()
                && self.values@[k as int] is Some
    }

    /// Every key so far was below this number.
    pub closed spec fn slots(self) -> nat {
        slab_slots(self.keys)
    }

    /// No call is in progress.
    pub fn new() -> (r: Self)
        ensures
            r.wf(),
            r.slots() == 0,
            r@ == Map::<usize, U>::empty(),
    {
        let r = PendingCalls { keys: slab_new(), values: Vec::new() };
        assert(r@ =~= Map::<usize, U>::empty());
        assert(r@.dom() =~= slab_keys(r.keys));
        r
    }

    /// Number of calls in progress.
    pub fn len(&self) -> (n: usize)
        requires
            self.wf(),
        ensures
            n == self@.len(),
            self@.dom().finite(),
    {
        assert(self@.dom() =~= slab_keys(self.keys));
        slab_len(&self.keys)
    }

    /// Tells whether a key is in use.
    pub fn contains(&self, key: usize) -> (r: bool)
        requires
            self.wf(),
        ensures
            r == self@.contains_key(key),
    {
        key < self.values.len() && self.values[key].is_some()
    }

    /// Keeps `user_data` under a key that is not in use, and returns the key.
    pub fn insert(&mut self, user_data: U) -> (key: usize)
        requires
            old(self).wf(),
            old(self)@.len() < usize::MAX / 128,
        ensures
            final(self).wf(),
            !old(self)@.contains_key(key),
            final(self)@ == old(self)@.insert(key, user_data),
            final(self).slots() == slots_after(old(self).slots(), old(self)@.len()),
            key < final(self).slots(),
    {
        assert(self@.dom() =~= slab_keys(self.keys));
        let key: usize = slab_insert(&mut self.keys);
        let ghost keys = self.keys;
        while self.values.len() <= key
            invariant
                self.values@.len() >= old(self).values@.len(),
                forall|i: int|
                    0 <= i < old(self).values@.len() ==> self.values@[i] == old(self).values@[i],
                forall|i: int|
                    old(self).values@.len() <= i < self.values@.len() ==> self.values@[i] is None,
                self.keys == keys,
            decreases key + 1 - self.values@.len(),
        {
            self.values.push(None);
        }
        self.values.set(key, Some(user_data));
        assert(self@ =~= old(self)@.insert(key, user_data));
        assert(self@.dom() =~= slab_keys(self.keys));
        key
    }

    /// Takes out the user data under `key`, where there is any.
    pub fn try_remove(&mut self, key: usize) -> (r: Option<U>)
        requires
            old(self).wf(),
        ensures
            final(self).wf(),
            final(self)@ == old(self)@.remove(key),
            final(self).slots() == old(self).slots(),
            match r {
                Some(user_data) => old(self)@.contains_key(key) && old(self)@[key] == user_data,
                None => !old(self)@.contains_key(key),
            },
    {
        match slab_try_remove(&mut self.keys, key) {
            Some(_) => {
                let mut taken: Option<U> = None;
                std::mem::swap(&mut self.values[key], &mut taken);
                assert(self@ =~= old(self)@.remove(key));
                assert(self@.dom() =~= slab_keys(self.keys));
                taken
            },
            None => {
                assert(self@ =~= old(self)@.remove(key));
                assert(self@.dom() =~= slab_keys(self.keys));
                None
            },
        }
    }
}

impl<U> View for PendingCalls<U> {
    type V = Map<usize, U>;

    /// The user data under each key in use.
    closed spec fn view(&self) -> Map<usize, U> {
        Map::new(|k: usize| slab_keys(self.keys).contains(k), |k: usize| self.values@[k as int]->0)
    }
}

/// A new slot is used only where all slots are taken.
pub proof fn law_slots_grow_when_full(slots: nat, used: nat)
    ensures
        slots <= slots_after(slots, used) <= slots + 1,
        slots < slots_after(slots, used) <==> used == slots,
{
}

} // verus!
