//! The core container interface and the safe facade layered over it.
//!
//! `ContainerImpl` is the minimal interface every fixed-capacity container
//! implements: construction over a caller-supplied buffer, length and
//! capacity queries, and single-element and bulk add/remove.  `Container`
//! is the richer facade that every implementor inherits for free.

use vstd::prelude::*;

verus! {

/// Minimal interface required to have a basic fixed-capacity container.
///
/// The spec functions fix an abstract model: `contents` is the sequence of
/// occupied elements in the container's own logical order, and the
/// `after_*` functions say exactly how each operation rewrites it.  Every
/// executable method is specified against that model, so the facade in
/// `Container` inherits precise contracts for free.
pub trait ContainerImpl<T>: Sized {
    /// The occupied elements, in the container's own logical order.
    spec fn contents(&self) -> Seq<T>;

    /// The fixed capacity: `contents` never grows past it.
    spec fn cap_spec(&self) -> int;

    /// Structural well-formedness; established by construction and
    /// preserved by every operation.
    spec fn wf(&self) -> bool;

    /// The element the next `remove` returns, given the contents.
    spec fn front_of(v: Seq<T>) -> T;

    /// The contents after adding `x` to a container holding `v`.
    spec fn after_add(v: Seq<T>, x: T) -> Seq<T>;

    /// The contents after removing one element from a container holding `v`.
    spec fn after_remove(v: Seq<T>) -> Seq<T>;

    /// The contents of a container freshly constructed over `data`.
    spec fn initial_contents(data: Seq<T>) -> Seq<T>;

    /// The contents after removing `k` elements one by one from a
    /// container holding `v`.
    spec fn after_removes_n(v: Seq<T>, k: int) -> Seq<T>;

    /// The contents after adding the elements of `xs` one by one to a
    /// container holding `v`.
    spec fn after_extend(v: Seq<T>, xs: Seq<T>) -> Seq<T>;

    /// Capacity invariant: a well-formed container never holds more than
    /// its fixed capacity.
    proof fn lemma_wf_len_bounds(&self)
        requires
            self.wf(),
        ensures
            0 <= self.contents().len() <= self.cap_spec(),
    ;

    /// Bulk removal is removing one element at a time: no removes change
    /// nothing, and `k` removes are one remove followed by `k - 1` more.
    proof fn lemma_after_removes_n_unfold(v: Seq<T>, k: int)
        requires
            0 <= k <= v.len(),
        ensures
            Self::after_removes_n(v, 0) == v,
            k >= 1 ==> Self::after_removes_n(v, k) == Self::after_removes_n(
                Self::after_remove(v),
                k - 1,
            ),
    ;

    /// Bulk insertion is adding one element at a time: adding nothing
    /// changes nothing, and adding `xs` is adding its first element and
    /// then the rest.
    proof fn lemma_after_extend_unfold(v: Seq<T>, xs: Seq<T>)
        ensures
            xs.len() == 0 ==> Self::after_extend(v, xs) == v,
            xs.len() >= 1 ==> Self::after_extend(v, xs) == Self::after_extend(
                Self::after_add(v, xs.first()),
                xs.drop_first(),
            ),
    ;

    /// Constructs the container over an existing buffer of `data.len()`
    /// valid elements, with room for `cap` elements in all.
    fn impl_construct(data: Vec<T>, cap: usize) -> (c: Self)
        requires
            data@.len() <= cap as int,
        ensures
            c.wf(),
            c.cap_spec() == cap as int,
            c.contents() == Self::initial_contents(data@),
            c.contents().len() == data@.len(),
            c.contents().to_multiset() == data@.to_multiset(),
    ;

    /// Returns the current number of elements in the container in O(1) time.
    fn impl_len(&self) -> (r: usize)
        requires
            self.wf(),
        ensures
            r as int == self.contents().len(),
    ;

    /// Returns the maximum number of elements the container can hold.
    fn impl_capacity(&self) -> (r: usize)
        requires
            self.wf(),
        ensures
            r as int == self.cap_spec(),
    ;

    /// Returns the same value as `len() == 0`, but may be faster.
    fn impl_is_empty(&self) -> (r: bool)
        requires
            self.wf(),
        ensures
            r == (self.contents().len() == 0),
    ;

    /// Returns the same value as `len() == capacity()`, but may be faster.
    fn impl_is_full(&self) -> (r: bool)
        requires
            self.wf(),
        ensures
            r == (self.contents().len() == self.cap_spec()),
    ;

    /// Returns a reference to the next element `impl_remove` would return.
    fn impl_peek(&self) -> (r: &T)
        requires
            self.wf(),
            self.contents().len() > 0,
        ensures
            *r == Self::front_of(self.contents()),
    ;

    /// Removes one element from the container and returns it.
    fn impl_remove(&mut self) -> (r: T)
        requires
            old(self).wf(),
            old(self).contents().len() > 0,
        ensures
            final(self).wf(),
            final(self).cap_spec() == old(self).cap_spec(),
            r == Self::front_of(old(self).contents()),
            final(self).contents() == Self::after_remove(old(self).contents()),
            final(self).contents().len() == old(self).contents().len() - 1,
            old(self).contents().to_multiset() == final(self).contents().to_multiset().insert(r),
    ;

    /// Removes up to `n` elements, dropping each, and returns how many
    /// were removed; equivalent to that many single removes.
    fn impl_forget(&mut self, n: usize) -> (r: usize)
        requires
            old(self).wf(),
        ensures
            final(self).wf(),
            final(self).cap_spec() == old(self).cap_spec(),
            r as int == if n as int <= old(self).contents().len() {
                n as int
            } else {
                old(self).contents().len() as int
            },
            final(self).contents() == Self::after_removes_n(old(self).contents(), r as int),
            final(self).contents().len() == old(self).contents().len() - r as int,
    ;

    /// Adds an element to the container.
    fn impl_add(&mut self, value: T)
        requires
            old(self).wf(),
            old(self).contents().len() < old(self).cap_spec(),
        ensures
            final(self).wf(),
            final(self).cap_spec() == old(self).cap_spec(),
            final(self).contents() == Self::after_add(old(self).contents(), value),
            final(self).contents().len() == old(self).contents().len() + 1,
            final(self).contents().to_multiset() == old(self).contents().to_multiset().insert(
                value,
            ),
    ;

    /// Adds copies of as many leading elements of `values` as fit and
    /// returns how many were added; equivalent to that many single adds.
    fn impl_extend(&mut self, values: &[T]) -> (r: usize) where T: Copy
        requires
            old(self).wf(),
        ensures
            final(self).wf(),
            final(self).cap_spec() == old(self).cap_spec(),
            r as int == if values@.len() <= old(self).cap_spec() - old(self).contents().len() {
                values@.len() as int
            } else {
                old(self).cap_spec() - old(self).contents().len() as int
            },
            final(self).contents() == Self::after_extend(
                old(self).contents(),
                values@.subrange(0, r as int),
            ),
            final(self).contents().len() == old(self).contents().len() + r as int,
    ;

    /// Drops all elements and marks the container empty.
    fn impl_clear(&mut self)
        requires
            old(self).wf(),
        ensures
            final(self).wf(),
            final(self).cap_spec() == old(self).cap_spec(),
            final(self).contents() == Seq::<T>::empty(),
    ;

    /// Re-buffers the container to capacity `new_cap`, making the occupied
    /// elements contiguous; the contents are unchanged.
    fn impl_copy(&mut self, new_cap: usize)
        requires
            old(self).wf(),
            old(self).contents().len() <= new_cap as int,
        ensures
            final(self).wf(),
            final(self).cap_spec() == new_cap as int,
            final(self).contents() == old(self).contents(),
    ;
}

/// The safe facade every container inherits from its `ContainerImpl`.
pub trait Container<T>: ContainerImpl<T> {
    /// Constructs a container over an existing buffer whose elements are
    /// all valid; the container starts full.
    fn from_full(data: Vec<T>) -> (c: Self)
        ensures
            c.wf(),
            c.cap_spec() == data@.len(),
            c.contents() == Self::initial_contents(data@),
            c.contents().len() == data@.len(),
            c.contents().to_multiset() == data@.to_multiset(),
    {
        let cap = data.len();
        Self::impl_construct(data, cap)
    }

    /// Constructs a container over an existing buffer of valid elements,
    /// with room for `cap` elements in all.
    fn from_existing(data: Vec<T>, cap: usize) -> (c: Self)
        requires
            data@.len() <= cap as int,
        ensures
            c.wf(),
            c.cap_spec() == cap as int,
            c.contents() == Self::initial_contents(data@),
            c.contents().len() == data@.len(),
            c.contents().to_multiset() == data@.to_multiset(),
    {
        Self::impl_construct(data, cap)
    }

    /// Constructs an empty container with room for `cap` elements.
    fn from_empty(cap: usize) -> (c: Self)
        ensures
            c.wf(),
            c.cap_spec() == cap as int,
            c.contents() == Self::initial_contents(Seq::<T>::empty()),
            c.contents().len() == 0,
    {
        Self::impl_construct(Vec::new(), cap)
    }

    /// Returns the current number of elements in the container.
    fn len(&self) -> (r: usize)
        requires
            self.wf(),
        ensures
            r as int == self.contents().len(),
    {
        self.impl_len()
    }

    /// Returns the maximum number of elements the container can hold.
    fn capacity(&self) -> (r: usize)
        requires
            self.wf(),
        ensures
            r as int == self.cap_spec(),
    {
        self.impl_capacity()
    }

    /// Returns whether the container holds no elements.
    fn is_empty(&self) -> (r: bool)
        requires
            self.wf(),
        ensures
            r == (self.contents().len() == 0),
    {
        self.impl_is_empty()
    }

    /// Returns whether the container is at capacity.
    fn is_full(&self) -> (r: bool)
        requires
            self.wf(),
        ensures
            r == (self.contents().len() == self.cap_spec()),
    {
        self.impl_is_full()
    }

    /// Returns a reference to the next element `remove` would return, or
    /// `None` if the container is empty.
    fn peek(&self) -> (r: Option<&T>)
        requires
            self.wf(),
        ensures
            match r {
                Option::None => self.contents().len() == 0,
                Option::Some(x) => self.contents().len() > 0 && *x == Self::front_of(
                    self.contents(),
                ),
            },
    {
        if self.impl_is_empty() {
            Option::None
        } else {
            Option::Some(self.impl_peek())
        }
    }

    /// Returns a reference to the next element `remove` would return.
    /// The caller rules the empty case out
    /// beforehand, so the failure `_err` names can never be raised.
    fn peek_or_panic(&self, _err: &'static str) -> (r: &T)
        requires
            self.wf(),
            self.contents().len() > 0,
        ensures
            *r == Self::front_of(self.contents()),
    {
        self.impl_peek()
    }

    /// Removes one element and returns it, or `None` if the container is
    /// empty.
    fn remove(&mut self) -> (r: Option<T>)
        requires
            old(self).wf(),
        ensures
            final(self).wf(),
            final(self).cap_spec() == old(self).cap_spec(),
            match r {
                Option::None => {
                    &&& old(self).contents().len() == 0
                    &&& final(self).contents() == old(self).contents()
                },
                Option::Some(x) => {
                    &&& old(self).contents().len() > 0
                    &&& x == Self::front_of(old(self).contents())
                    &&& final(self).contents() == Self::after_remove(old(self).contents())
                    &&& final(self).contents().len() == old(self).contents().len() - 1
                    &&& old(self).contents().to_multiset()
                        == final(self).contents().to_multiset().insert(x)
                },
            },
    {
        if self.impl_is_empty() {
            Option::None
        } else {
            Option::Some(self.impl_remove())
        }
    }

    /// Removes one element and returns it.  The caller rules the empty
    /// case out beforehand, so the failure `_err` names can never be
    /// raised.
    fn remove_or_panic(&mut self, _err: &'static str) -> (r: T)
        requires
            old(self).wf(),
            old(self).contents().len() > 0,
        ensures
            final(self).wf(),
            final(self).cap_spec() == old(self).cap_spec(),
            r == Self::front_of(old(self).contents()),
            final(self).contents() == Self::after_remove(old(self).contents()),
            final(self).contents().len() == old(self).contents().len() - 1,
            old(self).contents().to_multiset() == final(self).contents().to_multiset().insert(r),
    {
        self.impl_remove()
    }

    /// Removes one element and returns it, or `None` if the container is
    /// empty.  The vacated slot is left holding nothing, so this
    /// coincides with `remove`: there is no stale copy to scrub.
    fn remove_and_zero(&mut self) -> (r: Option<T>)
        requires
            old(self).wf(),
        ensures
            final(self).wf(),
            final(self).cap_spec() == old(self).cap_spec(),
            match r {
                Option::None => {
                    &&& old(self).contents().len() == 0
                    &&& final(self).contents() == old(self).contents()
                },
                Option::Some(x) => {
                    &&& old(self).contents().len() > 0
                    &&& x == Self::front_of(old(self).contents())
                    &&& final(self).contents() == Self::after_remove(old(self).contents())
                    &&& final(self).contents().len() == old(self).contents().len() - 1
                },
            },
    {
        self.remove()
    }

    /// Removes one element and returns it, leaving the vacated slot
    /// holding nothing.  The caller rules the empty case out beforehand,
    /// so the failure `_err` names can never be raised.
    fn remove_and_zero_or_panic(&mut self, _err: &'static str) -> (r: T)
        requires
            old(self).wf(),
            old(self).contents().len() > 0,
        ensures
            final(self).wf(),
            final(self).cap_spec() == old(self).cap_spec(),
            r == Self::front_of(old(self).contents()),
            final(self).contents() == Self::after_remove(old(self).contents()),
            final(self).contents().len() == old(self).contents().len() - 1,
    {
        self.impl_remove()
    }

    /// Removes up to `n` elements, dropping each, and returns how many
    /// were removed.  The result is the same as calling `remove` that many
    /// times and discarding the values.
    fn forget(&mut self, n: usize) -> (r: usize)
        requires
            old(self).wf(),
        ensures
            final(self).wf(),
            final(self).cap_spec() == old(self).cap_spec(),
            r as int == if n as int <= old(self).contents().len() {
                n as int
            } else {
                old(self).contents().len() as int
            },
            final(self).contents() == Self::after_removes_n(old(self).contents(), r as int),
            final(self).contents().len() == old(self).contents().len() - r as int,
    {
        self.impl_forget(n)
    }

    /// Removes up to `n` elements and returns how many were removed; the
    /// vacated slots are left holding nothing, so this coincides with
    /// `forget`.
    fn forget_and_zero(&mut self, n: usize) -> (r: usize)
        requires
            old(self).wf(),
        ensures
            final(self).wf(),
            final(self).cap_spec() == old(self).cap_spec(),
            r as int == if n as int <= old(self).contents().len() {
                n as int
            } else {
                old(self).contents().len() as int
            },
            final(self).contents() == Self::after_removes_n(old(self).contents(), r as int),
            final(self).contents().len() == old(self).contents().len() - r as int,
    {
        self.impl_forget(n)
    }

    /// Adds an element, or hands it back unchanged when the container is
    /// full.
    fn try_add(&mut self, value: T) -> (r: Option<T>)
        requires
            old(self).wf(),
        ensures
            final(self).wf(),
            final(self).cap_spec() == old(self).cap_spec(),
            match r {
                Option::None => {
                    &&& old(self).contents().len() < old(self).cap_spec()
                    &&& final(self).contents() == Self::after_add(old(self).contents(), value)
                    &&& final(self).contents().len() == old(self).contents().len() + 1
                    &&& final(self).contents().to_multiset() == old(
                        self,
                    ).contents().to_multiset().insert(value)
                },
                Option::Some(v) => {
                    &&& old(self).contents().len() == old(self).cap_spec()
                    &&& v == value
                    &&& final(self).contents() == old(self).contents()
                },
            },
    {
        proof {
            self.lemma_wf_len_bounds();
        }
        if self.impl_is_full() {
            Option::Some(value)
        } else {
            self.impl_add(value);
            Option::None
        }
    }

    /// Adds an element.  The caller rules the full case out
    /// beforehand, so the failure `_err` names can never be raised.
    fn add_or_panic(&mut self, value: T, _err: &'static str)
        requires
            old(self).wf(),
            old(self).contents().len() < old(self).cap_spec(),
        ensures
            final(self).wf(),
            final(self).cap_spec() == old(self).cap_spec(),
            final(self).contents() == Self::after_add(old(self).contents(), value),
            final(self).contents().len() == old(self).contents().len() + 1,
            final(self).contents().to_multiset() == old(self).contents().to_multiset().insert(
                value,
            ),
    {
        self.impl_add(value)
    }

    /// Adds copies of as many leading elements of `values` as fit and
    /// returns how many were added.
    fn extend(&mut self, values: &[T]) -> (r: usize) where T: Copy
        requires
            old(self).wf(),
        ensures
            final(self).wf(),
            final(self).cap_spec() == old(self).cap_spec(),
            r as int == if values@.len() <= old(self).cap_spec() - old(self).contents().len() {
                values@.len() as int
            } else {
                old(self).cap_spec() - old(self).contents().len() as int
            },
            final(self).contents() == Self::after_extend(
                old(self).contents(),
                values@.subrange(0, r as int),
            ),
            final(self).contents().len() == old(self).contents().len() + r as int,
    {
        self.impl_extend(values)
    }

    /// Adds copies of all elements of `values`.  The caller rules the
    /// overfull case out beforehand, so the failure `_err` names can
    /// never be raised.
    fn extend_or_panic(&mut self, values: &[T], _err: &'static str) where T: Copy
        requires
            old(self).wf(),
            values@.len() <= old(self).cap_spec() - old(self).contents().len(),
        ensures
            final(self).wf(),
            final(self).cap_spec() == old(self).cap_spec(),
            final(self).contents() == Self::after_extend(old(self).contents(), values@),
            final(self).contents().len() == old(self).contents().len() + values@.len(),
    {
        let n = self.impl_extend(values);
        proof {
            assert(values@.subrange(0, n as int) =~= values@);
        }
    }

    /// Drops all elements, leaving the container empty.
    fn clear(&mut self)
        requires
            old(self).wf(),
        ensures
            final(self).wf(),
            final(self).cap_spec() == old(self).cap_spec(),
            final(self).contents() == Seq::<T>::empty(),
    {
        self.impl_clear()
    }

    /// Drops all elements and leaves every slot holding nothing; in this
    /// owned-slot model that is what `clear` already does.
    fn clear_and_zero(&mut self)
        requires
            old(self).wf(),
        ensures
            final(self).wf(),
            final(self).cap_spec() == old(self).cap_spec(),
            final(self).contents() == Seq::<T>::empty(),
    {
        self.impl_clear()
    }

    /// Moves the occupied elements into a fresh backing buffer of capacity
    /// `new_cap`, guaranteeing they end up contiguous; the contents are
    /// unchanged.
    fn move_data(&mut self, new_cap: usize)
        requires
            old(self).wf(),
            old(self).contents().len() <= new_cap as int,
        ensures
            final(self).wf(),
            final(self).cap_spec() == new_cap as int,
            final(self).contents() == old(self).contents(),
    {
        self.impl_copy(new_cap)
    }

    /// Moves the occupied elements into a fresh contiguous buffer of
    /// capacity `new_cap` and abandons the old one with nothing left in
    /// it; in this owned-slot model that is what `move_data` already
    /// does.
    fn move_data_and_zero(&mut self, new_cap: usize)
        requires
            old(self).wf(),
            old(self).contents().len() <= new_cap as int,
        ensures
            final(self).wf(),
            final(self).cap_spec() == new_cap as int,
            final(self).contents() == old(self).contents(),
    {
        self.impl_copy(new_cap)
    }
}

impl<T, C: ContainerImpl<T>> Container<T> for C {
}

} // verus!
