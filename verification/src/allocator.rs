//! A slab-style pool allocator with guard-based reclamation.
//!
//! The allocator owns a fixed pool of objects and a ring queue of free
//! slot indices.  Allocation pops a free slot and hands its object out
//! inside an `Allocated` guard; releasing the guard parks the object
//! again and pushes the slot back.  A released guard remembers that it no
//! longer holds anything, so releasing twice gives the slot back exactly
//! once.

use vstd::prelude::*;
use vstd::pervasive::VecAdditionalExecFns;
use crate::container::Container;
use crate::container::ContainerImpl;
use crate::queue::Queue;

verus! {

/// Implementation required for safe initialization of types: the hook an
/// allocator runs on every fresh allocation.
pub trait Init {
    /// Initializes the value in place.
    fn init(&mut self);
}

/// Implementation required for all allocatable types: the consumer
/// supplies the backing pool and the two diagnostic messages its
/// allocator is built with.
pub trait Alloc: Sized {
    /// The statically sized backing pool for this type.
    fn backing() -> Vec<Self>;

    /// Diagnostic for an exhausted pool.
    fn alloc_err() -> &'static str;

    /// Diagnostic for a corrupted free list.
    fn dealloc_err() -> &'static str;

    /// Builds the allocator for this type over its backing pool.
    fn allocator() -> (a: Allocator<Self>)
        ensures
            a.wf(),
            a.available_spec() == a.capacity_spec(),
    {
        Allocator::new(Self::backing(), Self::alloc_err(), Self::dealloc_err())
    }
}

/// A distinct sequence of slot indices that all lie below `cap` but all
/// avoid one slot cannot fill the whole range.
proof fn lemma_distinct_avoiding_seq_len(s: Seq<int>, cap: int, excl: int)
    requires
        s.no_duplicates(),
        forall|k: int| 0 <= k < s.len() ==> 0 <= #[trigger] s[k] < cap,
        forall|k: int| 0 <= k < s.len() ==> #[trigger] s[k] != excl,
        0 <= excl < cap,
    ensures
        s.len() <= cap - 1,
{
    broadcast use vstd::set::group_set_axioms;

    s.unique_seq_to_set();
    let rng = vstd::set_lib::set_int_range(0, cap).remove(excl);
    vstd::set_lib::lemma_int_range(0, cap);
    assert(s.to_set().subset_of(rng)) by {
        assert forall|x: int| s.to_set().contains(x) implies rng.contains(x) by {
            assert(s.contains(x));
            let k = choose|k: int| 0 <= k < s.len() && s[k] == x;
            assert(0 <= s[k] < cap);
            assert(s[k] != excl);
        }
    }
    assert(rng.len() == cap - 1);
    vstd::set_lib::lemma_len_subset(s.to_set(), rng);
}

/// Simple mechanism for allocating objects from a fixed pool.
///
/// `pool[i]` parks the slot's object while the slot is free and holds
/// `None` while it is checked out; `refs` holds exactly the free slot
/// indices.
pub struct Allocator<T> {
    pool: Vec<Option<T>>,
    refs: Queue<usize>,
    alloc_err: &'static str,
    dealloc_err: &'static str,
}

/// Marker for allocated objects: an owning handle over one pool slot.
/// `value` carries the slot's object while the guard holds it and `None`
/// once the guard has been released.
pub struct Allocated<T> {
    slot: usize,
    value: Option<T>,
}

impl<T> Allocated<T> {
    /// Whether the guard still holds its object.
    pub closed spec fn is_holding(&self) -> bool {
        self.value is Some
    }

    /// The pool slot the guard was allocated from.
    pub closed spec fn slot_spec(&self) -> int {
        self.slot as int
    }

    /// The object the guard holds.
    pub closed spec fn value_spec(&self) -> T {
        self.value.unwrap()
    }

    /// Returns a reference to the held object.
    pub fn value(&self) -> (r: &T)
        requires
            self.is_holding(),
        ensures
            *r == self.value_spec(),
    {
        self.value.as_ref().unwrap()
    }

    /// Returns a mutable reference to the held object.
    pub fn value_mut(&mut self) -> (r: &mut T)
        requires
            old(self).is_holding(),
        ensures
            *r == old(self).value_spec(),
            final(self).is_holding(),
            final(self).slot_spec() == old(self).slot_spec(),
            final(self).value_spec() == *final(r),
    {
        self.value.as_mut().unwrap()
    }

    /// Releases the guard's slot back to `a`, parking the object there;
    /// a guard released before hands nothing back, so a second release
    /// never frees the slot twice.
    pub fn release(&mut self, a: &mut Allocator<T>)
        requires
            old(a).wf(),
            old(a).owns(*old(self)),
        ensures
            final(a).wf(),
            final(a).capacity_spec() == old(a).capacity_spec(),
            !final(self).is_holding(),
            final(self).slot_spec() == old(self).slot_spec(),
            old(self).is_holding() ==> {
                &&& final(a).available_spec() == old(a).available_spec() + 1
                &&& final(a).slot_free(old(self).slot_spec())
                &&& final(a).free_list() == old(a).free_list().push(
                    old(self).slot_spec() as usize,
                )
                &&& final(a).parked_at(old(self).slot_spec()) == old(self).value_spec()
                &&& forall|i: int|
                    0 <= i < old(a).capacity_spec() && i != old(self).slot_spec() ==> final(a).slot_free(i) == old(a).slot_free(i) && final(a).parked_at(i) == old(
                        a,
                    ).parked_at(i)
            },
            !old(self).is_holding() ==> *final(a) == *old(a),
    {
        let v = self.value.take();
        match v {
            Option::None => {
            },
            Option::Some(x) => {
                a.dealloc(self.slot, x);
            },
        }
    }
}

impl<T> Allocator<T> {
    /// The allocator's bookkeeping is sound: the free queue holds
    /// distinct in-range indices, and a slot parks an object exactly when
    /// its index sits in the free queue.
    pub closed spec fn wf(&self) -> bool {
        &&& self.refs.wf()
        &&& self.refs.cap_spec() == self.pool@.len()
        &&& forall|k: int|
            0 <= k < self.refs.contents().len() ==> 0 <= (#[trigger] self.refs.contents()[k])
                < self.pool@.len()
        &&& self.refs.contents().no_duplicates()
        &&& forall|i: int|
            0 <= i < self.pool@.len() ==> ((#[trigger] self.pool@[i]) is Some
                <==> self.refs.contents().contains(i as usize))
    }

    /// The number of free slots.
    pub closed spec fn available_spec(&self) -> int {
        self.refs.contents().len() as int
    }

    /// The pool's size.
    pub closed spec fn capacity_spec(&self) -> int {
        self.pool@.len() as int
    }

    /// Whether slot `i` is free (its object is parked in the pool).
    pub closed spec fn slot_free(&self, i: int) -> bool {
        0 <= i < self.pool@.len() && self.pool@[i] is Some
    }

    /// The free slot indices, oldest first: allocation consumes them
    /// from the front and release appends at the back.
    pub closed spec fn free_list(&self) -> Seq<usize> {
        self.refs.contents()
    }

    /// The object parked in slot `i`; meaningful while the slot is free.
    pub closed spec fn parked_at(&self, i: int) -> T {
        self.pool@[i].unwrap()
    }

    /// Whether `g` is a guard this allocator handed out and has not
    /// taken back: a holding guard always covers a checked-out slot.
    pub open spec fn owns(&self, g: Allocated<T>) -> bool {
        g.is_holding() ==> {
            &&& 0 <= g.slot_spec() < self.capacity_spec()
            &&& !self.slot_free(g.slot_spec())
        }
    }

    /// Constructs an allocator from a pool of objects and the two
    /// diagnostic messages for allocate and deallocate failures.  Every
    /// slot starts free.
    pub fn new(pool: Vec<T>, alloc_err: &'static str, dealloc_err: &'static str) -> (a:
        Allocator<T>)
        ensures
            a.wf(),
            a.capacity_spec() == pool@.len(),
            a.available_spec() == pool@.len(),
            forall|i: int| 0 <= i < pool@.len() ==> a.slot_free(i),
            a.free_list() == Seq::new(pool@.len(), |i: int| i as usize),
            forall|i: int| 0 <= i < pool@.len() ==> a.parked_at(i) == pool@[i],
    {
        let mut pool = pool;
        let n = pool.len();
        let mut slots: Vec<Option<T>> = Vec::new();
        let ghost orig = pool@;
        let mut i: usize = 0;
        while i < n
            invariant
                i <= n,
                n as int == orig.len(),
                pool@ == orig.skip(i as int),
                slots@.len() == i as int,
                forall|j: int|
                    0 <= j < i as int ==> (#[trigger] slots@[j]) == Option::Some(orig[j]),
            decreases n - i,
        {
            let v = pool.remove(0);
            proof {
                assert(orig.skip(i as int).drop_first() =~= orig.skip(i + 1));
                assert(v == orig[i as int]);
            }
            slots.push(Option::Some(v));
            i = i + 1;
        }
        let mut refs: Queue<usize> = Container::from_empty(n);
        let mut k: usize = 0;
        while k < n
            invariant
                k <= n,
                refs.wf(),
                refs.cap_spec() == n as int,
                refs.contents() == Seq::new(k as nat, |j: int| j as usize),
            decreases n - k,
        {
            refs.add_or_panic(k, "");
            proof {
                assert(refs.contents() =~= Seq::new((k + 1) as nat, |j: int| j as usize));
            }
            k = k + 1;
        }
        let a = Allocator { pool: slots, refs, alloc_err, dealloc_err };
        proof {
            assert(a.refs.contents().no_duplicates());
            assert forall|i2: int| 0 <= i2 < a.pool@.len() implies ((#[trigger] a.pool@[i2])
                is Some <==> a.refs.contents().contains(i2 as usize)) by {
                assert(a.refs.contents()[i2] == i2 as usize);
            }
        }
        a
    }

    /// Returns the number of available objects in this allocator.
    pub fn available(&self) -> (r: usize)
        requires
            self.wf(),
        ensures
            r as int == self.available_spec(),
    {
        self.refs.len()
    }

    /// Returns the same value as `available() > 0`, but may be faster.
    pub fn has_available(&self) -> (r: bool)
        requires
            self.wf(),
        ensures
            r == (self.available_spec() > 0),
    {
        !self.refs.is_empty()
    }

    /// Pops the next free slot and takes its parked object out.
    fn take_slot(&mut self) -> (r: (usize, T))
        requires
            old(self).wf(),
            old(self).available_spec() > 0,
        ensures
            final(self).wf(),
            final(self).capacity_spec() == old(self).capacity_spec(),
            final(self).available_spec() == old(self).available_spec() - 1,
            0 <= (r.0 as int) < old(self).capacity_spec(),
            r.0 == old(self).free_list()[0],
            r.1 == old(self).parked_at(r.0 as int),
            final(self).free_list() == old(self).free_list().drop_first(),
            old(self).slot_free((r.0 as int)),
            !final(self).slot_free((r.0 as int)),
            forall|i: int|
                0 <= i < old(self).capacity_spec() && i != (r.0 as int) ==> final(self).slot_free(i)
                    == old(self).slot_free(i) && final(self).parked_at(i) == old(self).parked_at(
                    i,
                ),
    {
        let ghost pre = *self;
        let cap = self.pool.len();
        let slot = self.refs.remove_or_panic(self.alloc_err);
        proof {
            assert(pre.refs.contents()[0] == slot);
            assert(self.refs.contents() == pre.refs.contents().drop_first());
            assert forall|i: int|
                0 <= i < self.pool@.len() && i != slot as int implies ((#[trigger] self.pool@[i])
                is Some <==> self.refs.contents().contains(i as usize)) by {
                if self.refs.contents().contains(i as usize) {
                    let k = choose|k: int|
                        0 <= k < self.refs.contents().len() && self.refs.contents()[k]
                            == i as usize;
                    assert(pre.refs.contents()[k + 1] == i as usize);
                }
                if pre.refs.contents().contains(i as usize) {
                    let k = choose|k: int|
                        0 <= k < pre.refs.contents().len() && pre.refs.contents()[k]
                            == i as usize;
                    assert(k != 0);
                    assert(self.refs.contents()[k - 1] == i as usize);
                }
            }
            assert(!self.refs.contents().contains(slot)) by {
                if self.refs.contents().contains(slot) {
                    let k = choose|k: int|
                        0 <= k < self.refs.contents().len() && self.refs.contents()[k] == slot;
                    assert(pre.refs.contents()[k + 1] == slot);
                    assert(pre.refs.contents()[0] == slot);
                }
            }
        }
        let v = self.pool[slot].take();
        proof {
            assert(self.wf());
        }
        (slot, v.unwrap())
    }

    /// Allocates an object from this allocator without running its
    /// initialization hook; the caller initializes it before use.  The
    /// caller rules the exhausted case out beforehand, so the failure the
    /// allocator's configured diagnostic names can never be raised.
    pub fn alloc_uninitialized(&mut self) -> (g: Allocated<T>)
        requires
            old(self).wf(),
            old(self).available_spec() > 0,
        ensures
            final(self).wf(),
            final(self).capacity_spec() == old(self).capacity_spec(),
            final(self).available_spec() == old(self).available_spec() - 1,
            g.is_holding(),
            final(self).owns(g),
            g.slot_spec() == old(self).free_list()[0] as int,
            g.value_spec() == old(self).parked_at(g.slot_spec()),
            final(self).free_list() == old(self).free_list().drop_first(),
            old(self).slot_free(g.slot_spec()),
            !final(self).slot_free(g.slot_spec()),
            forall|i: int|
                0 <= i < old(self).capacity_spec() && i != g.slot_spec() ==> final(self).slot_free(i) == old(self).slot_free(i) && final(self).parked_at(i) == old(
                    self,
                ).parked_at(i),
    {
        let (slot, v) = self.take_slot();
        Allocated { slot, value: Option::Some(v) }
    }

    /// Optionally allocates an object without initialization, returning
    /// `None` exactly when the pool is exhausted.
    pub fn alloc_unitialized_option(&mut self) -> (g: Option<Allocated<T>>)
        requires
            old(self).wf(),
        ensures
            final(self).wf(),
            final(self).capacity_spec() == old(self).capacity_spec(),
            match g {
                Option::None => {
                    &&& old(self).available_spec() == 0
                    &&& *final(self) == *old(self)
                },
                Option::Some(h) => {
                    &&& old(self).available_spec() > 0
                    &&& final(self).available_spec() == old(self).available_spec() - 1
                    &&& h.is_holding()
                    &&& final(self).owns(h)
                    &&& h.slot_spec() == old(self).free_list()[0] as int
                    &&& h.value_spec() == old(self).parked_at(h.slot_spec())
                    &&& final(self).free_list() == old(self).free_list().drop_first()
                    &&& old(self).slot_free(h.slot_spec())
                    &&& !final(self).slot_free(h.slot_spec())
                    &&& forall|i: int|
                        0 <= i < old(self).capacity_spec() && i != h.slot_spec() ==> final(self).slot_free(i) == old(self).slot_free(i) && final(self).parked_at(i)
                            == old(self).parked_at(i)
                },
            },
    {
        if self.refs.is_empty() {
            Option::None
        } else {
            Option::Some(self.alloc_uninitialized())
        }
    }

    /// Allocates an object and runs its initialization hook on it.  The
    /// caller rules the exhausted case out beforehand.
    pub fn allocate(&mut self) -> (g: Allocated<T>) where T: Init
        requires
            old(self).wf(),
            old(self).available_spec() > 0,
        ensures
            final(self).wf(),
            final(self).capacity_spec() == old(self).capacity_spec(),
            final(self).available_spec() == old(self).available_spec() - 1,
            g.is_holding(),
            final(self).owns(g),
            g.slot_spec() == old(self).free_list()[0] as int,
            final(self).free_list() == old(self).free_list().drop_first(),
            old(self).slot_free(g.slot_spec()),
            !final(self).slot_free(g.slot_spec()),
            forall|i: int|
                0 <= i < old(self).capacity_spec() && i != g.slot_spec() ==> final(self).slot_free(i) == old(self).slot_free(i) && final(self).parked_at(i) == old(
                    self,
                ).parked_at(i),
    {
        let (slot, mut v) = self.take_slot();
        v.init();
        Allocated { slot, value: Option::Some(v) }
    }

    /// Optionally allocates an initialized object, returning `None`
    /// exactly when the pool is exhausted.
    pub fn allocate_option(&mut self) -> (g: Option<Allocated<T>>) where T: Init
        requires
            old(self).wf(),
        ensures
            final(self).wf(),
            final(self).capacity_spec() == old(self).capacity_spec(),
            match g {
                Option::None => {
                    &&& old(self).available_spec() == 0
                    &&& *final(self) == *old(self)
                },
                Option::Some(h) => {
                    &&& old(self).available_spec() > 0
                    &&& final(self).available_spec() == old(self).available_spec() - 1
                    &&& h.is_holding()
                    &&& final(self).owns(h)
                    &&& h.slot_spec() == old(self).free_list()[0] as int
                    &&& final(self).free_list() == old(self).free_list().drop_first()
                    &&& old(self).slot_free(h.slot_spec())
                    &&& !final(self).slot_free(h.slot_spec())
                    &&& forall|i: int|
                        0 <= i < old(self).capacity_spec() && i != h.slot_spec() ==> final(self).slot_free(i) == old(self).slot_free(i) && final(self).parked_at(i)
                            == old(self).parked_at(i)
                },
            },
    {
        if self.refs.is_empty() {
            Option::None
        } else {
            Option::Some(self.allocate())
        }
    }

    /// Parks `value` back in `slot` and pushes the slot onto the free
    /// queue.  A full free queue here would mean the slot was already
    /// free — a double-free — but a checked-out slot keeps the queue
    /// strictly below its capacity, so the push cannot fail.
    fn dealloc(&mut self, slot: usize, value: T)
        requires
            old(self).wf(),
            0 <= (slot as int) < old(self).capacity_spec(),
            !old(self).slot_free(slot as int),
        ensures
            final(self).wf(),
            final(self).capacity_spec() == old(self).capacity_spec(),
            final(self).available_spec() == old(self).available_spec() + 1,
            final(self).slot_free(slot as int),
            final(self).free_list() == old(self).free_list().push(slot),
            final(self).parked_at(slot as int) == value,
            forall|i: int|
                0 <= i < old(self).capacity_spec() && i != slot as int ==> final(self).slot_free(
                    i,
                ) == old(self).slot_free(i) && final(self).parked_at(i) == old(self).parked_at(i),
    {
        let ghost pre = *self;
        let cap = self.pool.len();
        proof {
            let mapped = pre.refs.contents().map_values(|x: usize| x as int);
            assert(mapped.no_duplicates()) by {
                assert forall|k1: int, k2: int|
                    0 <= k1 < mapped.len() && 0 <= k2 < mapped.len() && k1 != k2 implies mapped[k1]
                    != mapped[k2] by {
                    assert(pre.refs.contents()[k1] != pre.refs.contents()[k2]);
                }
            }
            assert forall|k: int| 0 <= k < mapped.len() implies 0 <= #[trigger] mapped[k]
                < pre.capacity_spec() by {
                assert(0 <= pre.refs.contents()[k] < pre.pool@.len());
            }
            assert forall|k: int| 0 <= k < mapped.len() implies #[trigger] mapped[k]
                != slot as int by {
                if mapped[k] == slot as int {
                    assert(pre.refs.contents()[k] == slot);
                    assert(pre.refs.contents().contains(slot));
                }
            }
            lemma_distinct_avoiding_seq_len(mapped, pre.capacity_spec(), slot as int);
        }
        self.pool.set(slot, Option::Some(value));
        let ghost mid = *self;
        self.refs.add_or_panic(slot, self.dealloc_err);
        proof {
            assert(self.refs.contents() == pre.refs.contents().push(slot));
            assert(self.refs.contents().no_duplicates()) by {
                assert(!pre.refs.contents().contains(slot));
                assert forall|k1: int, k2: int|
                    0 <= k1 < self.refs.contents().len() && 0 <= k2 < self.refs.contents().len()
                        && k1 != k2 implies (#[trigger] self.refs.contents()[k1]) != (
                #[trigger] self.refs.contents()[k2]) by {
                    if k1 < pre.refs.contents().len() && k2 < pre.refs.contents().len() {
                    } else if k1 < pre.refs.contents().len() {
                        if self.refs.contents()[k1] == slot {
                            assert(pre.refs.contents().contains(slot));
                        }
                    } else {
                        if self.refs.contents()[k2] == slot {
                            assert(pre.refs.contents().contains(slot));
                        }
                    }
                }
            }
            assert forall|i: int|
                0 <= i < self.pool@.len() implies ((#[trigger] self.pool@[i]) is Some
                <==> self.refs.contents().contains(i as usize)) by {
                if i == slot as int {
                    assert(self.refs.contents()[self.refs.contents().len() - 1] == slot);
                } else {
                    if pre.refs.contents().contains(i as usize) {
                        let k = choose|k: int|
                            0 <= k < pre.refs.contents().len() && pre.refs.contents()[k]
                                == i as usize;
                        assert(self.refs.contents()[k] == i as usize);
                    }
                    if self.refs.contents().contains(i as usize) {
                        let k = choose|k: int|
                            0 <= k < self.refs.contents().len() && self.refs.contents()[k]
                                == i as usize;
                        assert(k < pre.refs.contents().len());
                        assert(pre.refs.contents()[k] == i as usize);
                    }
                }
            }
        }
    }
}

} // verus!
