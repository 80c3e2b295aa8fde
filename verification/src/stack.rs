//! A fixed-capacity LIFO stack.
//!
//! Follows the x86 convention of growing from the high end of its buffer
//! toward the low end: the slot at `last` holds the most recently added
//! element, and slots below `last` are free.

use vstd::prelude::*;
use vstd::pervasive::VecAdditionalExecFns;
use crate::container::ContainerImpl;

verus! {

/// A fixed-size LIFO container over a contiguous buffer.
///
/// Occupied slots are `data[last..]`; the top of the stack sits at
/// `data[last]`.  Free slots hold `None`.
pub struct Stack<T> {
    data: Vec<Option<T>>,
    last: usize,
}

impl<T> Stack<T> {
    /// Returns a mutable reference to the next element `remove` would
    /// return.  Not part of the shared facade: a heap could not allow
    /// arbitrary edits without losing its ordering invariant, but a
    /// stack's shape does not depend on its values.
    pub fn peek_mut(&mut self) -> (r: &mut T)
        requires
            old(self).wf(),
            old(self).contents().len() > 0,
        ensures
            *r == old(self).contents().last(),
            final(self).wf(),
            final(self).cap_spec() == old(self).cap_spec(),
            final(self).contents().len() == old(self).contents().len(),
            final(self).contents().last() == *final(r),
            forall|k: int|
                0 <= k < old(self).contents().len() - 1 ==> (#[trigger] final(self).contents()[k])
                    == old(self).contents()[k],
    {
        proof {
            assert(old(self).contents().last() == old(self).data@[old(self).last as int].unwrap());
        }
        self.data[self.last].as_mut().unwrap()
    }

    /// Returns the element `i` places below the top: slot 0 is the next
    /// element `remove` would return, the order an inspection pass reads.
    pub fn get(&self, i: usize) -> (r: &T)
        requires
            self.wf(),
            (i as int) < self.contents().len(),
        ensures
            *r == self.contents()[self.contents().len() - 1 - i as int],
    {
        let cap = self.data.len();
        proof {
            assert(self.contents()[self.contents().len() - 1 - i as int] == self.data@[self.last
                + i as int].unwrap());
        }
        self.data[self.last + i].as_ref().unwrap()
    }
}

impl<T> ContainerImpl<T> for Stack<T> {
    closed spec fn contents(&self) -> Seq<T> {
        Seq::new(
            (self.data@.len() - self.last as int) as nat,
            |k: int| self.data@[self.data@.len() - 1 - k].unwrap(),
        )
    }

    closed spec fn cap_spec(&self) -> int {
        self.data@.len() as int
    }

    closed spec fn wf(&self) -> bool {
        &&& self.last as int <= self.data@.len()
        &&& forall|i: int|
            self.last as int <= i < self.data@.len() ==> (#[trigger] self.data@[i]) is Some
    }

    open spec fn front_of(v: Seq<T>) -> T {
        v.last()
    }

    open spec fn after_add(v: Seq<T>, x: T) -> Seq<T> {
        v.push(x)
    }

    open spec fn after_remove(v: Seq<T>) -> Seq<T> {
        v.drop_last()
    }

    open spec fn initial_contents(data: Seq<T>) -> Seq<T> {
        data.reverse()
    }

    open spec fn after_removes_n(v: Seq<T>, k: int) -> Seq<T> {
        v.take(v.len() - k)
    }

    open spec fn after_extend(v: Seq<T>, xs: Seq<T>) -> Seq<T> {
        v + xs
    }

    proof fn lemma_wf_len_bounds(&self) {
    }

    proof fn lemma_after_removes_n_unfold(v: Seq<T>, k: int) {
        assert(v.take(v.len() - 0) =~= v);
        if k >= 1 {
            assert(v.drop_last().take(v.len() - k) =~= v.take(v.len() - k));
        }
    }

    proof fn lemma_after_extend_unfold(v: Seq<T>, xs: Seq<T>) {
        if xs.len() == 0 {
            assert(v + xs =~= v);
        } else {
            assert(v.push(xs.first()) + xs.drop_first() =~= v + xs);
        }
    }

    fn impl_construct(mut data: Vec<T>, cap: usize) -> (c: Self) {
        let n = data.len();
        let ghost orig = data@;
        let mut buf: Vec<Option<T>> = Vec::new();
        let mut i: usize = 0;
        while i < cap
            invariant
                i <= cap,
                buf@.len() == i as int,
                forall|j: int| 0 <= j < i as int ==> (#[trigger] buf@[j]) is None,
            decreases cap - i,
        {
            buf.push(Option::None);
            i = i + 1;
        }
        let mut k: usize = 0;
        while k < n
            invariant
                k <= n,
                n <= cap,
                n as int == orig.len(),
                data@ == orig.take(n - k),
                buf@.len() == cap as int,
                forall|j: int|
                    0 <= j < cap - k as int ==> (#[trigger] buf@[j]) is None,
                forall|j: int|
                    cap - k as int <= j < cap as int ==> (#[trigger] buf@[j]) == Option::Some(
                        orig[j - cap + n],
                    ),
            decreases n - k,
        {
            proof {
                assert(data@.len() == n - k);
            }
            let v = data.pop().unwrap();
            proof {
                assert(v == orig[n - 1 - k as int]);
                assert(orig.take(n - k as int).drop_last() =~= orig.take(n - (k + 1) as int));
            }
            buf.set(cap - 1 - k, Option::Some(v));
            k = k + 1;
        }
        let c = Stack { data: buf, last: cap - n };
        proof {
            assert(c.contents() =~= orig.reverse());
            orig.lemma_reverse_to_multiset();
        }
        c
    }

    fn impl_len(&self) -> (r: usize) {
        self.data.len() - self.last
    }

    fn impl_capacity(&self) -> (r: usize) {
        self.data.len()
    }

    fn impl_is_empty(&self) -> (r: bool) {
        self.last == self.data.len()
    }

    fn impl_is_full(&self) -> (r: bool) {
        self.last == 0
    }

    fn impl_peek(&self) -> (r: &T) {
        proof {
            assert(self.contents().last() == self.data@[self.last as int].unwrap());
        }
        self.data[self.last].as_ref().unwrap()
    }

    fn impl_remove(&mut self) -> (r: T) {
        let ghost pre = *self;
        let cap = self.data.len();
        let v = self.data[self.last].take();
        self.last = self.last + 1;
        proof {
            assert(self.contents() =~= pre.contents().drop_last());
            assert(v == Option::Some(pre.contents().last()));
            pre.contents().to_multiset_ensures();
            assert(pre.contents().drop_last().push(pre.contents().last()) =~= pre.contents());
            assert(pre.contents().drop_last().push(
                pre.contents().last(),
            ).to_multiset() == pre.contents().drop_last().to_multiset().insert(
                pre.contents().last(),
            )) by {
                pre.contents().drop_last().to_multiset_ensures();
            }
        }
        v.unwrap()
    }

    fn impl_forget(&mut self, n: usize) -> (r: usize) {
        let ghost pre = *self;
        let len = self.data.len() - self.last;
        let r = if n <= len {
            n
        } else {
            len
        };
        let mut k: usize = 0;
        while k < r
            invariant
                k <= r,
                r as int <= pre.contents().len(),
                self.last == pre.last,
                self.last as int + r as int <= self.data@.len(),
                self.data@.len() <= usize::MAX,
                self.data@.len() == pre.data@.len(),
                forall|i: int|
                    0 <= i < self.data@.len() && !(self.last as int <= i < self.last + k as int)
                        ==> (#[trigger] self.data@[i]) == pre.data@[i],
                forall|i: int|
                    self.last as int <= i < self.last + k as int ==> (#[trigger] self.data@[i])
                        is None,
            decreases r - k,
        {
            self.data.set(self.last + k, Option::None);
            k = k + 1;
        }
        self.last = self.last + r;
        proof {
            assert(self.contents() =~= pre.contents().take(pre.contents().len() - r as int));
        }
        r
    }

    fn impl_add(&mut self, value: T) {
        let ghost pre = *self;
        self.last = self.last - 1;
        self.data.set(self.last, Option::Some(value));
        proof {
            assert(self.contents() =~= pre.contents().push(value));
            pre.contents().to_multiset_ensures();
        }
    }

    fn impl_extend(&mut self, values: &[T]) -> (r: usize) where T: Copy {
        let ghost pre = *self;
        let avail = self.last;
        let r = if values.len() <= avail {
            values.len()
        } else {
            avail
        };
        let mut j: usize = 0;
        while j < r
            invariant
                j <= r,
                r as int <= values@.len(),
                r <= pre.last,
                self.last == pre.last,
                self.data@.len() == pre.data@.len(),
                pre.last as int <= pre.data@.len(),
                forall|i: int|
                    0 <= i < self.data@.len() && !(self.last - j as int <= i < self.last as int)
                        ==> (#[trigger] self.data@[i]) == pre.data@[i],
                forall|i: int|
                    self.last - j as int <= i < self.last as int ==> (#[trigger] self.data@[i])
                        == Option::Some(values@[self.last - 1 - i]),
            decreases r - j,
        {
            self.data.set(self.last - 1 - j, Option::Some(values[j]));
            j = j + 1;
        }
        self.last = self.last - r;
        proof {
            assert(self.contents() =~= pre.contents() + values@.subrange(0, r as int));
        }
        r
    }

    fn impl_clear(&mut self) {
        let ghost pre = *self;
        let cap = self.data.len();
        let mut i: usize = self.last;
        while i < cap
            invariant
                self.last <= i,
                i <= cap,
                cap as int == self.data@.len(),
                self.last == pre.last,
            decreases cap - i,
        {
            self.data.set(i, Option::None);
            i = i + 1;
        }
        self.last = cap;
        proof {
            assert(self.contents() =~= Seq::<T>::empty());
        }
    }

    fn impl_copy(&mut self, new_cap: usize) {
        let ghost pre = *self;
        let len = self.data.len() - self.last;
        let mut buf: Vec<Option<T>> = Vec::new();
        let mut i: usize = 0;
        while i < new_cap
            invariant
                i <= new_cap,
                buf@.len() == i as int,
                forall|j: int| 0 <= j < i as int ==> (#[trigger] buf@[j]) is None,
            decreases new_cap - i,
        {
            buf.push(Option::None);
            i = i + 1;
        }
        let newlast = new_cap - len;
        let mut k: usize = 0;
        while k < len
            invariant
                k <= len,
                len as int == pre.contents().len(),
                newlast as int == new_cap - len,
                self.last == pre.last,
                self.data@.len() == pre.data@.len(),
                self.data@.len() <= usize::MAX,
                self.last + len as int == self.data@.len(),
                buf@.len() == new_cap as int,
                forall|i2: int|
                    self.last + k as int <= i2 < self.data@.len() ==> (#[trigger] self.data@[i2])
                        == pre.data@[i2],
                forall|j: int|
                    newlast as int <= j < newlast + k as int ==> (#[trigger] buf@[j])
                        == pre.data@[j - newlast + self.last],
                forall|j: int|
                    0 <= j < buf@.len() && !(newlast as int <= j < newlast + k as int) ==> (
                    #[trigger] buf@[j]) is None,
            decreases len - k,
        {
            let v = self.data[self.last + k].take();
            buf.set(newlast + k, v);
            k = k + 1;
        }
        self.data = buf;
        self.last = newlast;
        proof {
            assert(self.contents() =~= pre.contents());
        }
    }
}

} // verus!
