//! A fixed-capacity FIFO ring queue.
//!
//! A circular buffer over a fixed buffer: `first` points at the oldest
//! occupied slot and `next` at the next free slot, both advancing modulo
//! the capacity.  The `full` flag disambiguates the case `first == next`,
//! which otherwise could mean either empty or full.

use vstd::prelude::*;
use vstd::pervasive::VecAdditionalExecFns;
use crate::container::ContainerImpl;

verus! {

/// The buffer slot holding the element `i` places after `first`, wrapping
/// around a buffer of `cap` slots.
pub open spec fn wrap_index(first: int, i: int, cap: int) -> int {
    if first + i < cap {
        first + i
    } else {
        first + i - cap
    }
}

/// Distinct offsets below the capacity land in distinct slots.
proof fn lemma_wrap_index_injective(first: int, a: int, b: int, cap: int)
    requires
        0 <= first < cap,
        0 <= a < cap,
        0 <= b < cap,
        a != b,
    ensures
        wrap_index(first, a, cap) != wrap_index(first, b, cap),
{
}

/// Advancing by `a` and then by `b` lands where advancing by `a + b` does.
proof fn lemma_wrap_index_compose(first: int, a: int, b: int, cap: int)
    requires
        0 <= first < cap,
        0 <= a,
        0 <= b,
        a + b <= cap,
    ensures
        wrap_index(wrap_index(first, a, cap), b, cap) == wrap_index(first, a + b, cap),
{
}

/// A fixed-size FIFO container over a circular buffer.
pub struct Queue<T> {
    data: Vec<Option<T>>,
    first: usize,
    next: usize,
    full: bool,
}

impl<T> Queue<T> {
    /// The number of occupied slots.
    pub closed spec fn len_spec(&self) -> int {
        if self.full {
            self.data@.len() as int
        } else if self.first <= self.next {
            self.next - self.first
        } else {
            self.data@.len() - (self.first - self.next)
        }
    }
}

impl<T> Queue<T> {
    /// Returns a mutable reference to the next element `remove` would
    /// return.  Not part of the shared facade: a heap could not allow
    /// arbitrary edits without losing its ordering invariant, but a
    /// ring queue's shape does not depend on its values.
    pub fn peek_mut(&mut self) -> (r: &mut T)
        requires
            old(self).wf(),
            old(self).contents().len() > 0,
        ensures
            *r == old(self).contents().first(),
            final(self).wf(),
            final(self).cap_spec() == old(self).cap_spec(),
            final(self).contents().len() == old(self).contents().len(),
            final(self).contents().first() == *final(r),
            forall|k: int|
                1 <= k < old(self).contents().len() ==> (#[trigger] final(self).contents()[k])
                    == old(self).contents()[k],
    {
        proof {
            assert(old(self).contents().first() == old(self).data@[wrap_index(
                old(self).first as int,
                0,
                old(self).data@.len() as int,
            )].unwrap());
            assert forall|k: int| 1 <= k < old(self).len_spec() implies wrap_index(
                old(self).first as int,
                k,
                old(self).data@.len() as int,
            ) != old(self).first as int by {
                lemma_wrap_index_injective(
                    old(self).first as int,
                    0,
                    k,
                    old(self).data@.len() as int,
                );
            }
        }
        self.data[self.first].as_mut().unwrap()
    }

    /// Returns the element `i` places behind the front, in logical
    /// front-to-back order, without rearranging the buffer.
    pub fn get(&self, i: usize) -> (r: &T)
        requires
            self.wf(),
            (i as int) < self.contents().len(),
        ensures
            *r == self.contents()[i as int],
    {
        let cap = self.data.len();
        let idx = if i < cap - self.first {
            self.first + i
        } else {
            i - (cap - self.first)
        };
        proof {
            assert(idx as int == wrap_index(self.first as int, i as int, cap as int));
        }
        self.data[idx].as_ref().unwrap()
    }
}

impl<T> ContainerImpl<T> for Queue<T> {
    closed spec fn contents(&self) -> Seq<T> {
        Seq::new(
            self.len_spec() as nat,
            |i: int|
                self.data@[wrap_index(self.first as int, i, self.data@.len() as int)].unwrap(),
        )
    }

    closed spec fn cap_spec(&self) -> int {
        self.data@.len() as int
    }

    closed spec fn wf(&self) -> bool {
        let cap = self.data@.len() as int;
        &&& if cap == 0 {
            self.first == 0 && self.next == 0 && self.full
        } else {
            (self.first as int) < cap && (self.next as int) < cap
        }
        &&& self.full ==> self.first == self.next
        &&& forall|i: int|
            0 <= i < self.len_spec() ==> (#[trigger] self.data@[wrap_index(
                self.first as int,
                i,
                cap,
            )]) is Some
    }

    open spec fn front_of(v: Seq<T>) -> T {
        v.first()
    }

    open spec fn after_add(v: Seq<T>, x: T) -> Seq<T> {
        v.push(x)
    }

    open spec fn after_remove(v: Seq<T>) -> Seq<T> {
        v.drop_first()
    }

    open spec fn initial_contents(data: Seq<T>) -> Seq<T> {
        data
    }

    open spec fn after_removes_n(v: Seq<T>, k: int) -> Seq<T> {
        v.skip(k)
    }

    open spec fn after_extend(v: Seq<T>, xs: Seq<T>) -> Seq<T> {
        v + xs
    }

    proof fn lemma_wf_len_bounds(&self) {
    }

    proof fn lemma_after_removes_n_unfold(v: Seq<T>, k: int) {
        assert(v.skip(0) =~= v);
        if k >= 1 {
            assert(v.drop_first().skip(k - 1) =~= v.skip(k));
        }
    }

    proof fn lemma_after_extend_unfold(v: Seq<T>, xs: Seq<T>) {
        if xs.len() == 0 {
            assert(v + xs =~= v);
        } else {
            assert(v.push(xs.first()) + xs.drop_first() =~= v + xs);
        }
    }

    fn impl_construct(mut data: Vec<T>, cap: usize) -> (c: Self) {
        let ghost orig = data@;
        let n = data.len();
        let mut buf: Vec<Option<T>> = Vec::new();
        let mut i: usize = 0;
        while i < n
            invariant
                i <= n,
                n as int == orig.len(),
                data@ == orig.skip(i as int),
                buf@.len() == i as int,
                forall|j: int|
                    0 <= j < i as int ==> (#[trigger] buf@[j]) == Option::Some(orig[j]),
            decreases n - i,
        {
            let v = data.remove(0);
            proof {
                assert(orig.skip(i as int).drop_first() =~= orig.skip(i + 1));
                assert(v == orig[i as int]);
            }
            buf.push(Option::Some(v));
            i = i + 1;
        }
        while i < cap
            invariant
                n <= i,
                i <= cap,
                n as int == orig.len(),
                buf@.len() == i as int,
                forall|j: int|
                    0 <= j < n as int ==> (#[trigger] buf@[j]) == Option::Some(orig[j]),
            decreases cap - i,
        {
            buf.push(Option::None);
            i = i + 1;
        }
        let full = n == cap;
        let c = Queue {
            data: buf,
            first: 0,
            next: if full {
                0
            } else {
                n
            },
            full,
        };
        proof {
            assert(c.contents() =~= orig);
        }
        c
    }

    fn impl_len(&self) -> (r: usize) {
        if self.full {
            self.data.len()
        } else if self.first <= self.next {
            self.next - self.first
        } else {
            self.data.len() - (self.first - self.next)
        }
    }

    fn impl_capacity(&self) -> (r: usize) {
        self.data.len()
    }

    fn impl_is_empty(&self) -> (r: bool) {
        if self.data.len() == 0 {
            true
        } else {
            self.first == self.next && !self.full
        }
    }

    fn impl_is_full(&self) -> (r: bool) {
        self.full
    }

    fn impl_peek(&self) -> (r: &T) {
        proof {
            assert(self.contents().first() == self.data@[wrap_index(
                self.first as int,
                0,
                self.data@.len() as int,
            )].unwrap());
        }
        self.data[self.first].as_ref().unwrap()
    }

    fn impl_remove(&mut self) -> (r: T) {
        let ghost pre = *self;
        let cap = self.data.len();
        let v = self.data[self.first].take();
        self.full = false;
        self.first = if self.first + 1 == cap {
            0
        } else {
            self.first + 1
        };
        proof {
            let capi = cap as int;
            let fi = pre.first as int;
            assert(self.first as int == wrap_index(fi, 1, capi));
            assert forall|i: int| 0 <= i < pre.len_spec() - 1 implies (
            #[trigger] self.data@[wrap_index(self.first as int, i, capi)]) is Some by {
                lemma_wrap_index_compose(fi, 1, i, capi);
                lemma_wrap_index_injective(fi, 0, i + 1, capi);
                assert(self.data@[wrap_index(fi, i + 1, capi)] == pre.data@[wrap_index(
                    fi,
                    i + 1,
                    capi,
                )]);
                assert(pre.data@[wrap_index(fi, i + 1, capi)] is Some);
            }
            assert(self.len_spec() == pre.len_spec() - 1);
            assert(self.contents() =~= pre.contents().drop_first());
            assert(v == Option::Some(pre.contents().first()));
            pre.contents().to_multiset_ensures();
            assert(pre.contents().remove(0) =~= pre.contents().drop_first());
            assert(self.contents().to_multiset() == pre.contents().to_multiset().remove(
                pre.contents().first(),
            ));
            assert(pre.contents().to_multiset() =~= self.contents().to_multiset().insert(
                pre.contents().first(),
            ));
        }
        v.unwrap()
    }

    fn impl_forget(&mut self, n: usize) -> (r: usize) {
        let ghost pre = *self;
        let cap = self.data.len();
        let len = self.impl_len();
        let r = if n <= len {
            n
        } else {
            len
        };
        if r > 0 {
            let mut k: usize = 0;
            while k < r
                invariant
                    k <= r,
                    0 < r,
                    r as int <= pre.len_spec(),
                    pre.wf(),
                    cap as int == pre.data@.len(),
                    self.first == pre.first,
                    self.next == pre.next,
                    self.full == pre.full,
                    self.data@.len() == pre.data@.len(),
                    forall|i: int|
                        0 <= i < self.data@.len() && !(exists|j: int|
                            0 <= j < k as int && i == wrap_index(
                                pre.first as int,
                                j,
                                cap as int,
                            )) ==> (#[trigger] self.data@[i]) == pre.data@[i],
                decreases r - k,
            {
                let idx = if k < cap - self.first {
                    self.first + k
                } else {
                    k - (cap - self.first)
                };
                proof {
                    assert(idx as int == wrap_index(pre.first as int, k as int, cap as int));
                }
                self.data.set(idx, Option::None);
                k = k + 1;
            }
            self.first = if r < cap - self.first {
                self.first + r
            } else {
                r - (cap - self.first)
            };
            self.full = false;
            proof {
                let capi = cap as int;
                let fi = pre.first as int;
                assert(self.first as int == wrap_index(fi, r as int, capi));
                assert forall|i: int| 0 <= i < pre.len_spec() - r as int implies {
                    &&& (#[trigger] self.data@[wrap_index(self.first as int, i, capi)])
                        == pre.data@[wrap_index(fi, i + r as int, capi)]
                    &&& self.data@[wrap_index(self.first as int, i, capi)] is Some
                } by {
                    lemma_wrap_index_compose(fi, r as int, i, capi);
                    let pos = wrap_index(fi, i + r as int, capi);
                    assert forall|jj: int| 0 <= jj < r as int implies wrap_index(fi, jj, capi)
                        != pos by {
                        lemma_wrap_index_injective(fi, jj, i + r as int, capi);
                    }
                    assert(self.data@[pos] == pre.data@[pos]);
                    assert(pre.data@[wrap_index(fi, i + r as int, capi)] is Some);
                }
                assert(self.len_spec() == pre.len_spec() - r as int);
                assert(self.contents() =~= pre.contents().skip(r as int));
            }
        } else {
            proof {
                assert(self.contents() =~= pre.contents().skip(0));
            }
        }
        r
    }

    fn impl_add(&mut self, value: T) {
        let ghost pre = *self;
        let cap = self.data.len();
        self.data.set(self.next, Option::Some(value));
        self.next = if self.next + 1 == cap {
            0
        } else {
            self.next + 1
        };
        if self.next == self.first {
            self.full = true;
        }
        proof {
            assert(self.contents() =~= pre.contents().push(value));
            pre.contents().to_multiset_ensures();
        }
    }

    fn impl_extend(&mut self, values: &[T]) -> (r: usize) where T: Copy {
        let ghost pre = *self;
        let cap = self.data.len();
        let len = self.impl_len();
        let avail = cap - len;
        let r = if values.len() <= avail {
            values.len()
        } else {
            avail
        };
        if r > 0 {
            let mut j: usize = 0;
            while j < r
                invariant
                    j <= r,
                    0 < r,
                    r as int <= values@.len(),
                    r as int <= pre.cap_spec() - pre.len_spec(),
                    pre.wf(),
                    cap as int == pre.data@.len(),
                    self.first == pre.first,
                    self.next == pre.next,
                    self.full == pre.full,
                    self.data@.len() == pre.data@.len(),
                    forall|i: int|
                        0 <= i < self.data@.len() && !(exists|jj: int|
                            0 <= jj < j as int && i == wrap_index(
                                pre.next as int,
                                jj,
                                cap as int,
                            )) ==> (#[trigger] self.data@[i]) == pre.data@[i],
                    forall|jj: int|
                        0 <= jj < j as int ==> (#[trigger] self.data@[wrap_index(
                            pre.next as int,
                            jj,
                            cap as int,
                        )]) == Option::Some(values@[jj]),
                decreases r - j,
            {
                let idx = if j < cap - self.next {
                    self.next + j
                } else {
                    j - (cap - self.next)
                };
                proof {
                    assert(idx as int == wrap_index(pre.next as int, j as int, cap as int));
                }
                self.data.set(idx, Option::Some(values[j]));
                j = j + 1;
            }
            self.next = if r < cap - self.next {
                self.next + r
            } else {
                r - (cap - self.next)
            };
            if self.next == self.first {
                self.full = true;
            }
            proof {
                let capi = cap as int;
                let fi = pre.first as int;
                let ni = pre.next as int;
                let plen = pre.len_spec();
                assert(ni == wrap_index(fi, plen, capi));
                assert(self.next as int == wrap_index(ni, r as int, capi));
                assert forall|i: int| plen <= i < plen + r as int implies (
                #[trigger] self.data@[wrap_index(fi, i, capi)]) == Option::Some(
                    values@[i - plen],
                ) by {
                    lemma_wrap_index_compose(fi, plen, i - plen, capi);
                    assert(self.data@[wrap_index(ni, i - plen, capi)] == Option::Some(
                        values@[i - plen],
                    ));
                }
                assert forall|i: int| 0 <= i < plen implies {
                    &&& (#[trigger] self.data@[wrap_index(fi, i, capi)])
                        == pre.data@[wrap_index(fi, i, capi)]
                    &&& self.data@[wrap_index(fi, i, capi)] is Some
                } by {
                    let pos = wrap_index(fi, i, capi);
                    assert forall|jj: int| 0 <= jj < r as int implies wrap_index(ni, jj, capi)
                        != pos by {
                        lemma_wrap_index_compose(fi, plen, jj, capi);
                        lemma_wrap_index_injective(fi, i, plen + jj, capi);
                    }
                    assert(self.data@[pos] == pre.data@[pos]);
                    assert(pre.data@[pos] is Some);
                }
                assert(self.next as int == wrap_index(fi, plen + r as int, capi)) by {
                    lemma_wrap_index_compose(fi, plen, r as int, capi);
                }
                assert(self.len_spec() == plen + r as int);
                assert(self.contents() =~= pre.contents() + values@.subrange(0, r as int));
            }
        } else {
            proof {
                assert(self.contents() =~= pre.contents() + values@.subrange(0, 0));
            }
        }
        r
    }

    fn impl_clear(&mut self) {
        let ghost pre = *self;
        let cap = self.data.len();
        let len = self.impl_len();
        let mut k: usize = 0;
        while k < len
            invariant
                k <= len,
                len as int == pre.len_spec(),
                pre.wf(),
                cap as int == pre.data@.len(),
                self.first == pre.first,
                self.next == pre.next,
                self.full == pre.full,
                self.data@.len() == pre.data@.len(),
            decreases len - k,
        {
            let idx = if k < cap - self.first {
                self.first + k
            } else {
                k - (cap - self.first)
            };
            self.data.set(idx, Option::None);
            k = k + 1;
        }
        self.first = 0;
        self.next = 0;
        self.full = cap == 0;
        proof {
            assert(self.contents() =~= Seq::<T>::empty());
        }
    }

    fn impl_copy(&mut self, new_cap: usize) {
        let ghost pre = *self;
        let cap = self.data.len();
        let len = self.impl_len();
        let mut buf: Vec<Option<T>> = Vec::new();
        let mut i: usize = 0;
        while i < new_cap
            invariant
                i <= new_cap,
                buf@.len() == i as int,
                forall|j: int| 0 <= j < i as int ==> (#[trigger] buf@[j]) is None,
            decreases new_cap - i,
        {
            buf.push(Option::None);
            i = i + 1;
        }
        let mut k: usize = 0;
        while k < len
            invariant
                k <= len,
                len as int == pre.len_spec(),
                len <= new_cap,
                pre.wf(),
                cap as int == pre.data@.len(),
                self.first == pre.first,
                self.next == pre.next,
                self.full == pre.full,
                self.data@.len() == pre.data@.len(),
                buf@.len() == new_cap as int,
                forall|j: int|
                    0 <= j < k as int ==> (#[trigger] buf@[j]) == pre.data@[wrap_index(
                        pre.first as int,
                        j,
                        cap as int,
                    )],
                forall|j: int|
                    k as int <= j < new_cap as int ==> (#[trigger] buf@[j]) is None,
                forall|i2: int|
                    0 <= i2 < self.data@.len() && !(exists|j: int|
                        0 <= j < k as int && i2 == wrap_index(pre.first as int, j, cap as int))
                        ==> (#[trigger] self.data@[i2]) == pre.data@[i2],
            decreases len - k,
        {
            let idx = if k < cap - self.first {
                self.first + k
            } else {
                k - (cap - self.first)
            };
            proof {
                assert(idx as int == wrap_index(pre.first as int, k as int, cap as int));
            }
            let v = self.data[idx].take();
            buf.set(k, v);
            k = k + 1;
        }
        self.data = buf;
        self.first = 0;
        self.full = len == new_cap;
        self.next = if self.full {
            0
        } else {
            len
        };
        proof {
            assert(self.contents() =~= pre.contents());
        }
    }
}

} // verus!
