//! A pool of reusable objects. A slot is either free, and then holds its
//! object, or leased, and then its object is with the lease.

use vstd::prelude::*;

verus! {

/// A lease on one slot of a pool. It holds the slot's object until it is
/// handed back with `Pool::release`. It cannot be copied, so a slot has at
/// most one.
pub struct Reservable<T> {
    slot: usize,
    obj: T,
}

impl<T> Reservable<T> {
    /// The slot that the lease is on.
    pub closed spec fn spec_slot(&self) -> usize {
        self.slot
    }

    /// The object that the lease holds.
    pub closed spec fn spec_obj(&self) -> T {
        self.obj
    }

    /// The slot that the lease is on.
    #[verifier::when_used_as_spec(spec_slot)]
    pub fn slot(&self) -> (r: usize)
        ensures
            r == self.spec_slot(),
    {
        self.slot
    }

    /// The object that the lease holds.
    pub fn deref(&self) -> (r: &T)
        ensures
            *r == self.spec_obj(),
    {
        &self.obj
    }

    /// The object that the lease holds, for change.
    pub fn deref_mut(&mut self) -> (r: &mut T)
        ensures
            *r == old(self).spec_obj(),
            final(self).spec_obj() == *final(r),
            final(self).spec_slot() == old(self).spec_slot(),
    {
        &mut self.obj
    }
}

/// The first slot in `from..to` that is not in use.
pub open spec fn first_free(in_use: Seq<bool>, from: int, to: int) -> Option<int>
    decreases to - from,
{
    if from >= to {
        None
    } else if !in_use[from] {
        Some(from)
    } else {
        first_free(in_use, from + 1, to)
    }
}

/// The slot that a pull takes: the first free slot at or after `next`, else
/// the first free slot before `next`, else a new slot behind the last.
pub open spec fn spec_pick(in_use: Seq<bool>, next: int) -> int {
    match first_free(in_use, next, in_use.len() as int) {
        Some(slot) => slot,
        None => match first_free(in_use, 0, next) {
            Some(slot) => slot,
            None => in_use.len() as int,
        },
    }
}

/// Which slots are in use once `slot` has been taken.
pub open spec fn spec_taken(in_use: Seq<bool>, slot: int) -> Seq<bool> {
    if slot < in_use.len() {
        in_use.update(slot, true)
    } else {
        in_use.push(true)
    }
}

/// The slots that `n` pulls in a row take, none released in between.
pub open spec fn spec_pulls(in_use: Seq<bool>, next: int, n: nat) -> Seq<int>
    decreases n,
{
    if n == 0 {
        Seq::empty()
    } else {
        let slot = spec_pick(in_use, next);
        seq![slot] + spec_pulls(spec_taken(in_use, slot), slot + 1, (n - 1) as nat)
    }
}

/// What `first_free` finds is free and the first such slot, and it finds
/// one wherever one is free.
pub proof fn lemma_first_free(in_use: Seq<bool>, from: int, to: int)
    requires
        0 <= from,
        to <= in_use.len(),
    ensures
        match first_free(in_use, from, to) {
            Some(slot) => from <= slot < to && !in_use[slot] && forall|j: int|
                from <= j < slot ==> in_use[j],
            None => forall|j: int| from <= j < to ==> in_use[j],
        },
    decreases to - from,
{
    if from < to && in_use[from] {
        lemma_first_free(in_use, from + 1, to);
    }
}

/// A pull takes a slot that was free, and a new slot only when none was.
pub proof fn lemma_pick_is_free(in_use: Seq<bool>, next: int)
    requires
        0 <= next <= in_use.len(),
    ensures
        0 <= spec_pick(in_use, next) <= in_use.len(),
        spec_pick(in_use, next) < in_use.len() ==> !in_use[spec_pick(in_use, next)],
        spec_pick(in_use, next) == in_use.len() <==> forall|j: int|
            0 <= j < in_use.len() ==> in_use[j],
{
    lemma_first_free(in_use, next, in_use.len() as int);
    lemma_first_free(in_use, 0, next);
}

/// Once a slot has been released, the next pull takes a slot that is there
/// already, and a free one: the pool does not grow.
pub proof fn lemma_pull_after_release(in_use: Seq<bool>, next: int, released: int)
    requires
        0 <= next <= in_use.len(),
        0 <= released < in_use.len(),
    ensures
        0 <= spec_pick(in_use.update(released, false), next) < in_use.len(),
        !in_use.update(released, false)[spec_pick(in_use.update(released, false), next)],
{
    let after = in_use.update(released, false);
    lemma_pick_is_free(after, next);
    assert(!after[released]);
}

/// Pulls made in a row, with no release between them, take slots that are
/// all in use afterwards and that differ from one another.
pub proof fn lemma_pulls_distinct(in_use: Seq<bool>, next: int, n: nat)
    requires
        0 <= next <= in_use.len(),
    ensures
        spec_pulls(in_use, next, n).len() == n,
        forall|a: int|
            0 <= a < n ==> {
                let slot = #[trigger] spec_pulls(in_use, next, n)[a];
                0 <= slot && (slot < in_use.len() ==> !in_use[slot])
            },
        forall|a: int, b: int|
            0 <= a < b < n ==> spec_pulls(in_use, next, n)[a] != spec_pulls(in_use, next, n)[b],
    decreases n,
{
    if n > 0 {
        let slot = spec_pick(in_use, next);
        lemma_pick_is_free(in_use, next);
        let after = spec_taken(in_use, slot);
        let rest = spec_pulls(after, slot + 1, (n - 1) as nat);
        lemma_pulls_distinct(after, slot + 1, (n - 1) as nat);
        let all = spec_pulls(in_use, next, n);
        assert(all =~= seq![slot] + rest);
        assert forall|a: int| 0 <= a < n implies {
            let s = #[trigger] all[a];
            0 <= s && (s < in_use.len() ==> !in_use[s])
        } by {
            if a > 0 {
                let s = rest[a - 1];
                assert(all[a] == s);
                assert(s < after.len() ==> !after[s]);
            }
        }
        assert forall|a: int, b: int| 0 <= a < b < n implies all[a] != all[b] by {
            if a == 0 {
                let s = rest[b - 1];
                assert(all[b] == s);
                assert(s < after.len() ==> !after[s]);
                assert(after[slot]);
            } else {
                assert(all[a] == rest[a - 1]);
                assert(all[b] == rest[b - 1]);
            }
        }
    }
}

/// A growable set of reusable objects, lent out one lease at a time.
#[verifier::reject_recursive_types(T)]
pub struct Pool<T, F: Fn() -> T> {
    objects: Vec<Option<T>>,
    next: usize,
    init_function: F,
}

impl<T, F: Fn() -> T> Pool<T, F> {
    /// The slots in order: a free slot holds its object, a leased slot nothing.
    pub closed spec fn view(&self) -> Seq<Option<T>> {
        self.objects@
    }

    /// Where the search for a free slot begins: behind the slot taken last.
    pub closed spec fn spec_next(&self) -> int {
        self.next as int
    }

    /// The function that makes a new object.
    pub closed spec fn init(&self) -> F {
        self.init_function
    }

    /// Which slots are leased.
    pub open spec fn in_use(&self) -> Seq<bool> {
        Seq::new(self@.len(), |i: int| self@[i] is None)
    }

    /// What holds of every pool: the search begins inside it or just behind
    /// its last slot, and new objects can be made.
    pub open spec fn wf(&self) -> bool {
        &&& 0 <= self.spec_next() <= self@.len()
        &&& call_requires(self.init(), ())
    }

    /// The lease is on a slot of this pool that is out on lease.
    pub open spec fn owns(&self, lease: &Reservable<T>) -> bool {
        lease.spec_slot() < self@.len() && self@[lease.spec_slot() as int] is None
    }

    /// A pool of `capacity` free slots, each with an object made by
    /// `init_function`.
    pub fn new(capacity: usize, init_function: F) -> (pool: Pool<T, F>)
        requires
            call_requires(init_function, ()),
        ensures
            pool.wf(),
            pool.init() == init_function,
            pool.spec_next() == 0,
            pool@.len() == capacity,
            forall|i: int|
                0 <= i < capacity ==> (#[trigger] pool@[i]) is Some && call_ensures(
                    init_function,
                    (),
                    pool@[i].unwrap(),
                ),
    {
        let mut objects: Vec<Option<T>> = Vec::new();
        let mut i: usize = 0;
        while i < capacity
            invariant
                i <= capacity,
                objects@.len() == i,
                call_requires(init_function, ()),
                forall|j: int|
                    0 <= j < i ==> (#[trigger] objects@[j]) is Some && call_ensures(
                        init_function,
                        (),
                        objects@[j].unwrap(),
                    ),
            decreases capacity - i,
        {
            objects.push(Some(init_function()));
            i = i + 1;
        }
        Pool { objects, next: 0, init_function }
    }

    /// The number of slots, free and leased.
    pub fn len(&self) -> (n: usize)
        ensures
            n == self@.len(),
    {
        self.objects.len()
    }

    /// Whether a pull would find a free slot.
    pub fn has_free(&self) -> (r: bool)
        ensures
            r == exists|i: int| 0 <= i < self@.len() && !self.in_use()[i],
    {
        let mut i: usize = 0;
        while i < self.objects.len()
            invariant
                i <= self@.len(),
                forall|j: int| 0 <= j < i ==> self.in_use()[j],
            decreases self@.len() - i,
        {
            if self.objects[i].is_some() {
                assert(!self.in_use()[i as int]);
                return true;
            }
            i = i + 1;
        }
        false
    }

    /// Leases a slot, and never fails: the first free slot at or after the
    /// one taken last, else the first free slot before it, else a new slot
    /// with a new object. A slot that is reused comes with the object as it
    /// was handed back: nothing is cleared.
    pub fn pull(&mut self) -> (lease: Reservable<T>)
        requires
            old(self).wf(),
        ensures
            final(self).wf(),
            final(self).init() == old(self).init(),
            lease.spec_slot() == spec_pick(old(self).in_use(), old(self).spec_next()),
            final(self).spec_next() == lease.spec_slot() + 1,
            final(self).owns(&lease),
            lease.spec_slot() < old(self)@.len() ==> final(self)@ == old(self)@.update(
                lease.spec_slot() as int,
                None,
            ) && old(self)@[lease.spec_slot() as int] == Some(lease.spec_obj()),
            lease.spec_slot() >= old(self)@.len() ==> final(self)@ == old(self)@.push(None)
                && call_ensures(old(self).init(), (), lease.spec_obj()),
            final(self).in_use() == spec_taken(old(self).in_use(), lease.spec_slot() as int),
    {
        let len: usize = self.objects.len();
        let ghost flags = self.in_use();
        let mut i: usize = self.next;
        while i < len
            invariant
                self.next <= i <= len == self@.len(),
                *self == *old(self),
                self.wf(),
                flags == self.in_use(),
                first_free(flags, self.next as int, len as int) == first_free(
                    flags,
                    i as int,
                    len as int,
                ),
            decreases len - i,
        {
            if self.objects[i].is_some() {
                assert(!flags[i as int]);
                return self.use_value(i);
            }
            assert(flags[i as int]);
            i = i + 1;
        }
        let up_to: usize = self.next;
        i = 0;
        while i < up_to
            invariant
                i <= up_to <= len == self@.len(),
                *self == *old(self),
                self.wf(),
                flags == self.in_use(),
                up_to == old(self).spec_next(),
                flags.len() == len,
                first_free(flags, up_to as int, len as int) is None,
                first_free(flags, 0, up_to as int) == first_free(flags, i as int, up_to as int),
            decreases up_to - i,
        {
            if self.objects[i].is_some() {
                assert(!flags[i as int]);
                return self.use_value(i);
            }
            assert(flags[i as int]);
            i = i + 1;
        }
        let obj = (self.init_function)();
        self.objects.push(None);
        self.next = self.objects.len();
        assert(self.in_use() =~= flags.push(true));
        Reservable { slot: len, obj }
    }

    /// Takes the free slot `index`.
    fn use_value(&mut self, index: usize) -> (lease: Reservable<T>)
        requires
            old(self).wf(),
            index < old(self)@.len(),
            old(self)@[index as int] is Some,
        ensures
            final(self).wf(),
            final(self).init() == old(self).init(),
            lease.spec_slot() == index,
            old(self)@[index as int] == Some(lease.spec_obj()),
            final(self)@ == old(self)@.update(index as int, None),
            final(self).spec_next() == index + 1,
            final(self).in_use() == old(self).in_use().update(index as int, true),
    {
        assert(index < self.objects.len());
        let taken = self.objects[index].take();
        self.next = index + 1;
        assert(self.in_use() =~= old(self).in_use().update(index as int, true));
        Reservable { slot: index, obj: taken.unwrap() }
    }

    /// Takes a lease back: its slot is free again and holds the object as the
    /// lease left it. A lease on a slot that this pool has not out on lease
    /// is handed back untouched.
    pub fn release(&mut self, lease: Reservable<T>) -> (res: Result<(), Reservable<T>>)
        requires
            old(self).wf(),
        ensures
            final(self).wf(),
            final(self).init() == old(self).init(),
            final(self).spec_next() == old(self).spec_next(),
            old(self).owns(&lease) ==> res is Ok && final(self)@ == old(self)@.update(
                lease.spec_slot() as int,
                Some(lease.spec_obj()),
            ),
            !old(self).owns(&lease) ==> res == Err::<(), Reservable<T>>(lease) && final(self)@
                == old(self)@,
    {
        if lease.slot < self.objects.len() && self.objects[lease.slot].is_none() {
            let Reservable { slot, obj } = lease;
            self.objects.set(slot, Some(obj));
            Ok(())
        } else {
            Err(lease)
        }
    }
}

} // verus!
