//! A fixed-capacity greatest-priority-first queue.
//!
//! The occupied prefix of the buffer is kept as a binary max-heap in array
//! layout: the children of index `i` sit at `2 i + 1` and `2 i + 2`, and
//! every parent's priority is at least both children's.  `add` sifts the
//! new element up, `remove` swaps the root out and sifts the replacement
//! down, and construction heapifies the supplied buffer in place.

use vstd::prelude::*;
use vstd::pervasive::VecAdditionalExecFns;
use crate::container::ContainerImpl;
use crate::priority::Priority;

verus! {

/// The slot pair `k`, `c` is a parent/child edge of the array heap.
pub open spec fn is_child(k: int, c: int) -> bool {
    c == 2 * k + 1 || c == 2 * k + 2
}

/// The parent's priority dominates the child's.
pub open spec fn edge_ok<T: Priority>(s: Seq<T>, k: int, c: int) -> bool {
    s[k].prio_spec() >= s[c].prio_spec()
}

/// Every parent/child edge lying inside `[lo, n)` with the parent at `lo`
/// or above satisfies the max-heap property.
pub open spec fn is_heap_from<T: Priority>(s: Seq<T>, n: int, lo: int) -> bool {
    forall|k: int, c: int|
        lo <= k && is_child(k, c) && c < n ==> #[trigger] edge_ok(s, k, c)
}

/// The first `n` slots form a max-heap.
pub open spec fn is_heap_prefix<T: Priority>(s: Seq<T>, n: int) -> bool {
    is_heap_from(s, n, 0)
}

/// The whole sequence forms a max-heap.
pub open spec fn is_heap<T: Priority>(s: Seq<T>) -> bool {
    is_heap_from(s, s.len() as int, 0)
}

/// The priorities are non-increasing from front to back.
pub open spec fn sorted_desc<T: Priority>(s: Seq<T>) -> bool {
    forall|i: int, j: int|
        0 <= i <= j < s.len() ==> (#[trigger] s[i].prio_spec()) >= (#[trigger] s[j].prio_spec())
}

/// The sequence with the values at `i` and `j` exchanged.
pub open spec fn swap_seq<T>(s: Seq<T>, i: int, j: int) -> Seq<T> {
    s.update(i, s[j]).update(j, s[i])
}

/// Whether slot `k` lies in the subtree rooted at slot `root`.
pub open spec fn in_subtree(root: int, k: int) -> bool
    decreases (if k > 0 {
        k
    } else {
        0
    }),
{
    if k == root {
        true
    } else if k <= root || k <= 0 {
        false
    } else {
        in_subtree(root, (k - 1) / 2)
    }
}

/// The child the sift-down step would descend into: the larger of the two
/// children, the right one winning ties.
pub open spec fn chosen_child<T: Priority>(s: Seq<T>, n: int, i: int) -> int {
    let l = 2 * i + 1;
    let r = 2 * i + 2;
    if r < n && s[l].prio_spec() <= s[r].prio_spec() {
        r
    } else {
        l
    }
}

/// One complete sift-down pass from slot `i` over the first `n` slots:
/// while the larger child's priority exceeds the node's, they swap.
pub open spec fn sift_down_spec<T: Priority>(s: Seq<T>, i: int, n: int) -> Seq<T>
    decreases (if n > i {
        n - i
    } else {
        0
    }),
{
    if 0 <= i && i < n {
        let j = chosen_child(s, n, i);
        if j < n && s[j].prio_spec() > s[i].prio_spec() {
            sift_down_spec(swap_seq(s, i, j), j, n)
        } else {
            s
        }
    } else {
        s
    }
}

/// One complete sift-up pass from slot `i`: while the node's priority
/// exceeds its parent's, they swap.
pub open spec fn sift_up_spec<T: Priority>(s: Seq<T>, i: int) -> Seq<T>
    decreases (if i > 0 {
        i
    } else {
        0
    }),
{
    if 0 < i && i < s.len() {
        let p = (i - 1) / 2;
        if s[i].prio_spec() > s[p].prio_spec() {
            sift_up_spec(swap_seq(s, i, p), p)
        } else {
            s
        }
    } else {
        s
    }
}

/// The heap after removing its root: the last element replaces the root
/// and sifts down over the shortened range.
pub open spec fn heap_pop<T: Priority>(v: Seq<T>) -> Seq<T> {
    sift_down_spec(swap_seq(v, 0, v.len() - 1).drop_last(), 0, v.len() - 1)
}

/// The heap after adding `x`: the new element lands in the first free
/// slot and sifts up.
pub open spec fn heap_push<T: Priority>(v: Seq<T>, x: T) -> Seq<T> {
    sift_up_spec(v.push(x), v.len() as int)
}

/// The heap after `k` removals in a row.
pub open spec fn heap_pops<T: Priority>(v: Seq<T>, k: int) -> Seq<T>
    decreases k,
{
    if k <= 0 {
        v
    } else {
        heap_pops(heap_pop(v), k - 1)
    }
}

/// The heap after adding the elements of `xs` one by one.
pub open spec fn heap_pushes<T: Priority>(v: Seq<T>, xs: Seq<T>) -> Seq<T>
    decreases xs.len(),
{
    if xs.len() == 0 {
        v
    } else {
        heap_pushes(heap_push(v, xs.first()), xs.drop_first())
    }
}

/// Heapification: sift-down from the last internal node down to the root.
/// `heapify_from(s, k)` still has the nodes below `k` to process.
pub open spec fn heapify_from<T: Priority>(s: Seq<T>, k: int) -> Seq<T>
    decreases (if k > 0 {
        k
    } else {
        0
    }),
{
    if k <= 0 {
        s
    } else {
        heapify_from(sift_down_spec(s, k - 1, s.len() as int), k - 1)
    }
}

/// The heap built over an arbitrary buffer.
pub open spec fn heapify_spec<T: Priority>(s: Seq<T>) -> Seq<T> {
    heapify_from(s, s.len() as int / 2)
}

/// A child slot's parent is computed by the usual index arithmetic.
proof fn lemma_parent_child(c: int)
    requires
        c >= 1,
    ensures
        0 <= (c - 1) / 2 < c,
        is_child((c - 1) / 2, c),
{
    assert(2 * ((c - 1) / 2) + (c - 1) % 2 == c - 1) by (nonlinear_arith)
        requires
            c >= 1,
    ;
    assert(0 <= (c - 1) % 2 < 2) by (nonlinear_arith)
        requires
            c >= 1,
    ;
    assert(0 <= (c - 1) / 2 < c) by (nonlinear_arith)
        requires
            c >= 1,
    ;
}

/// The children of slot `i` have `i` as their computed parent.
proof fn lemma_child_parent(i: int)
    requires
        0 <= i,
    ensures
        (2 * i + 1 - 1) / 2 == i,
        (2 * i + 2 - 1) / 2 == i,
{
    assert((2 * i) / 2 == i) by (nonlinear_arith);
    assert((2 * i + 1) / 2 == i) by (nonlinear_arith);
}

/// Subtree members sit at or below their root slot.
proof fn lemma_subtree_member_ge(root: int, k: int)
    requires
        in_subtree(root, k),
    ensures
        k >= root,
{
}

/// A slot's children lie in its subtree.
proof fn lemma_children_in_subtree(i: int)
    requires
        0 <= i,
    ensures
        in_subtree(i, 2 * i + 1),
        in_subtree(i, 2 * i + 2),
{
    lemma_child_parent(i);
    assert(in_subtree(i, i));
    assert(in_subtree(i, 2 * i + 1));
    assert(in_subtree(i, 2 * i + 2));
}

/// Subtree membership is transitive.
proof fn lemma_subtree_trans(a: int, b: int, k: int)
    requires
        0 <= a,
        in_subtree(a, b),
        in_subtree(b, k),
    ensures
        in_subtree(a, k),
    decreases (if k > 0 {
        k
    } else {
        0
    }),
{
    if k != b {
        lemma_subtree_member_ge(b, k);
        lemma_subtree_member_ge(a, b);
        lemma_subtree_trans(a, b, (k - 1) / 2);
    }
}

/// Every slot lies in the root's subtree.
proof fn lemma_root_subtree(k: int)
    requires
        0 <= k,
    ensures
        in_subtree(0, k),
    decreases k,
{
    if k > 0 {
        lemma_parent_child(k);
        lemma_root_subtree((k - 1) / 2);
    }
}

/// Exchanging two slots leaves the multiset of values unchanged.
proof fn lemma_swap_seq_multiset<T>(s: Seq<T>, i: int, j: int)
    requires
        0 <= i < s.len(),
        0 <= j < s.len(),
    ensures
        swap_seq(s, i, j).len() == s.len(),
        swap_seq(s, i, j).to_multiset() == s.to_multiset(),
{
    broadcast use vstd::seq_lib::to_multiset_update;
    broadcast use vstd::multiset::group_multiset_axioms;

    s.to_multiset_ensures();
    if i != j {
        assert(s.contains(s[i]));
        assert(s.contains(s[j]));
        assert(s.update(i, s[j])[j] == s[j]);
        assert(swap_seq(s, i, j).to_multiset() =~= s.to_multiset());
    } else {
        assert(swap_seq(s, i, j) =~= s);
    }
}

/// In a heap region, a subtree's root dominates every slot of the subtree.
proof fn lemma_subtree_dominated<T: Priority>(s: Seq<T>, n: int, lo: int, rt: int, k: int)
    requires
        is_heap_from(s, n, lo),
        0 <= lo <= rt < n,
        in_subtree(rt, k),
        k < n,
    ensures
        s[rt].prio_spec() >= s[k].prio_spec(),
    decreases (if k > 0 {
        k
    } else {
        0
    }),
{
    if k != rt {
        lemma_subtree_member_ge(rt, k);
        let p = (k - 1) / 2;
        lemma_parent_child(k);
        lemma_subtree_member_ge(rt, p);
        lemma_subtree_dominated(s, n, lo, rt, p);
        assert(edge_ok(s, p, k));
    }
}

/// In a full heap, the root has the greatest priority of all elements.
pub proof fn lemma_heap_root_max<T: Priority>(v: Seq<T>, i: int)
    requires
        is_heap(v),
        0 <= i < v.len(),
    ensures
        v[0].prio_spec() >= v[i].prio_spec(),
{
    lemma_root_subtree(i);
    lemma_subtree_dominated(v, v.len() as int, 0, 0, i);
}

/// Sift-down repairs the heap: if every node strictly below `i` already
/// satisfies the heap property over the first `n` slots, then after the
/// pass every node from `i` on does.  Only the subtree of `i` is touched,
/// the values are merely rearranged, and the value rising into slot `i`
/// comes from that subtree.
proof fn lemma_sift_down<T: Priority>(s: Seq<T>, i: int, n: int)
    requires
        0 <= i < n,
        n <= s.len(),
        is_heap_from(s, n, i + 1),
    ensures
        ({
            let t = sift_down_spec(s, i, n);
            &&& t.len() == s.len()
            &&& is_heap_from(t, n, i)
            &&& forall|k: int|
                0 <= k < s.len() && !(in_subtree(i, k) && k < n) ==> (#[trigger] t[k]) == s[k]
            &&& t.to_multiset() == s.to_multiset()
            &&& exists|k: int| in_subtree(i, k) && k < n && t[i] == s[k]
            &&& t[i].prio_spec() >= s[i].prio_spec()
        }),
    decreases n - i,
{
    let t = sift_down_spec(s, i, n);
    let l = 2 * i + 1;
    let rr = 2 * i + 2;
    let j = chosen_child(s, n, i);
    assert(in_subtree(i, i));
    lemma_children_in_subtree(i);
    if j < n && s[j].prio_spec() > s[i].prio_spec() {
        let s1 = swap_seq(s, i, j);
        lemma_swap_seq_multiset(s, i, j);
        assert(in_subtree(i, j));
        // the heap property below j survives the swap, because only slots
        // i and j changed and no node strictly above j has a child at or
        // below i
        assert(is_heap_from(s1, n, j + 1)) by {
            assert forall|k: int, c: int| j + 1 <= k && is_child(k, c) && c < n implies #[trigger]
            edge_ok(s1, k, c) by {
                assert(edge_ok(s, k, c));
                assert(c >= 2 * k + 1);
                assert(k > i);
                assert(s1[k] == s[k]);
                assert(s1[c] == s[c]);
            }
        }
        lemma_sift_down(s1, j, n);
        let t1 = sift_down_spec(s1, j, n);
        assert(t == t1);
        // frame: anything outside the subtree of i is untouched
        assert forall|k: int| 0 <= k < s.len() && !(in_subtree(i, k) && k < n) implies t[k]
            == s[k] by {
            if in_subtree(j, k) && k < n {
                lemma_subtree_trans(i, j, k);
            } else {
                assert(0 <= k < s1.len());
                assert(!(in_subtree(j, k) && k < n));
                assert(t1[k] == s1[k]);
                if k != i && k != j {
                    assert(s1[k] == s[k]);
                } else if k == i {
                    assert(false);
                } else {
                    assert(false) by {
                        assert(in_subtree(i, j));
                    }
                }
            }
        }
        // the value now in slot i is the old chosen child
        assert(t[i] == s1[i]) by {
            assert(!in_subtree(j, i));
        }
        assert(t[i] == s[j]);
        // node i satisfies the heap property in the result
        assert(is_heap_from(t, n, i)) by {
            assert forall|k: int, c: int| i <= k && is_child(k, c) && c < n implies #[trigger]
            edge_ok(t, k, c) by {
                if k >= j {
                    assert(edge_ok(t1, k, c));
                } else if k == i {
                    // children of i are j and its sibling
                    assert(c == l || c == rr);
                    if c == j {
                        // the new occupant of j came out of j's subtree
                        let k0 = choose|k0: int|
                            in_subtree(j, k0) && k0 < n && t1[j] == s1[k0];
                        if k0 == j {
                            assert(t[c] == s[i]);
                        } else {
                            lemma_subtree_member_ge(j, k0);
                            assert(s1[k0] == s[k0]);
                            lemma_subtree_dominated(s, n, i + 1, j, k0);
                        }
                        assert(t[k].prio_spec() >= t[c].prio_spec());
                    } else {
                        // c is the sibling of j: unchanged, and the chosen
                        // child dominates it
                        assert(!in_subtree(j, c)) by {
                            if in_subtree(j, c) {
                                lemma_subtree_member_ge(j, c);
                                lemma_child_parent(i);
                                if c > j {
                                    assert(in_subtree(j, (c - 1) / 2));
                                    lemma_subtree_member_ge(j, (c - 1) / 2);
                                }
                            }
                        }
                        assert(t[c] == s[c]);
                        if j == rr && c == l {
                            assert(s[l].prio_spec() <= s[rr].prio_spec());
                        }
                        assert(t[k].prio_spec() >= t[c].prio_spec());
                    }
                } else {
                    // i < k < j: untouched node whose children are also
                    // untouched
                    assert(k > i && k < j);
                    assert(!in_subtree(j, k)) by {
                        if in_subtree(j, k) {
                            lemma_subtree_member_ge(j, k);
                        }
                    }
                    assert(t[k] == s[k]);
                    assert(!in_subtree(j, c)) by {
                        if in_subtree(j, c) {
                            lemma_child_parent(k);
                            lemma_child_parent(i);
                            if c == j {
                                assert(k == i);
                            } else {
                                lemma_subtree_member_ge(j, c);
                                assert(in_subtree(j, (c - 1) / 2));
                                assert(in_subtree(j, k));
                            }
                        }
                    }
                    assert(c != i);
                    assert(t[c] == s[c]);
                    assert(edge_ok(s, k, c));
                }
            }
        }
        assert(t[i].prio_spec() >= s[i].prio_spec());
        assert(exists|k: int| in_subtree(i, k) && k < n && t[i] == s[k]) by {
            assert(in_subtree(i, j) && j < n && t[i] == s[j]);
        }
    } else {
        assert(t == s);
        assert(is_heap_from(t, n, i)) by {
            assert forall|k: int, c: int| i <= k && is_child(k, c) && c < n implies #[trigger]
            edge_ok(t, k, c) by {
                if k == i {
                    assert(c == l || c == rr);
                    if j < n {
                        // the chosen child does not beat the node, and it
                        // dominates the sibling
                        if c == j {
                        } else if j == rr && c == l {
                            assert(s[l].prio_spec() <= s[rr].prio_spec());
                        } else {
                            // j == l and c == rr: rr < n rules the first
                            // chosen-child branch in, unless l beats rr
                            assert(s[rr].prio_spec() < s[l].prio_spec());
                        }
                    } else {
                        // no child in range at all
                        assert(!(l < n)) by {
                            if l < n {
                                assert(j == l || j == rr);
                            }
                        }
                        assert(false);
                    }
                } else {
                    assert(edge_ok(s, k, c));
                }
            }
        }
        assert(exists|k: int| in_subtree(i, k) && k < n && t[i] == s[k]) by {
            assert(in_subtree(i, i) && i < n && t[i] == s[i]);
        }
    }
}

/// A heap that is intact except possibly on the edge leading into slot
/// `i` from its parent.  The second clause bridges across `i`: its own
/// parent already dominates `i`'s children, which is what lets the parent
/// value sink into slot `i` during a sift-up swap.
pub open spec fn almost_heap_up<T: Priority>(s: Seq<T>, i: int) -> bool {
    let n = s.len() as int;
    &&& forall|k: int, c: int|
        0 <= k && is_child(k, c) && c < n && c != i ==> #[trigger] edge_ok(s, k, c)
    &&& (i > 0 ==> forall|c: int|
        is_child(i, c) && c < n ==> #[trigger] edge_ok(s, (i - 1) / 2, c))
}

/// Sift-up repairs the heap: starting from a heap that is intact except
/// on the edge into slot `i`, the pass yields a full heap holding the
/// same values.
proof fn lemma_sift_up<T: Priority>(s: Seq<T>, i: int)
    requires
        0 <= i < s.len(),
        almost_heap_up(s, i),
    ensures
        sift_up_spec(s, i).len() == s.len(),
        is_heap(sift_up_spec(s, i)),
        sift_up_spec(s, i).to_multiset() == s.to_multiset(),
    decreases i,
{
    let t = sift_up_spec(s, i);
    let n = s.len() as int;
    if 0 < i {
        let p = (i - 1) / 2;
        lemma_parent_child(i);
        if s[i].prio_spec() > s[p].prio_spec() {
            let s1 = swap_seq(s, i, p);
            lemma_swap_seq_multiset(s, i, p);
            assert(almost_heap_up(s1, p)) by {
                assert forall|k: int, c: int|
                    0 <= k && is_child(k, c) && c < n && c != p implies #[trigger] edge_ok(
                    s1,
                    k,
                    c,
                ) by {
                    lemma_child_parent(k);
                    if c == i {
                        assert(k == p);
                        assert(s1[p] == s[i]);
                        assert(s1[i] == s[p]);
                    } else if k == i {
                        assert(edge_ok(s, p, c));
                        assert(s1[i] == s[p]);
                        assert(s1[c] == s[c]);
                    } else if k == p {
                        assert(edge_ok(s, k, c));
                        assert(s1[c] == s[c]);
                    } else {
                        assert(edge_ok(s, k, c));
                        assert(s1[k] == s[k]);
                        assert(s1[c] == s[c]);
                    }
                }
                if p > 0 {
                    let g = (p - 1) / 2;
                    lemma_parent_child(p);
                    assert forall|c: int| is_child(p, c) && c < n implies #[trigger] edge_ok(
                        s1,
                        g,
                        c,
                    ) by {
                        assert(edge_ok(s, g, p));
                        assert(g < p < i);
                        assert(s1[g] == s[g]);
                        if c == i {
                            assert(s1[i] == s[p]);
                        } else {
                            assert(edge_ok(s, p, c));
                            assert(s1[c] == s[c]);
                        }
                    }
                }
            }
            lemma_sift_up(s1, p);
            assert(t == sift_up_spec(s1, p));
        } else {
            assert(t == s);
            assert(is_heap(s)) by {
                assert forall|k: int, c: int| 0 <= k && is_child(k, c) && c < n implies #[trigger]
                edge_ok(s, k, c) by {
                    if c == i {
                        lemma_child_parent(k);
                        assert(k == p);
                    }
                }
            }
        }
    } else {
        assert(t == s);
        assert(is_heap(s)) by {
            assert forall|k: int, c: int| 0 <= k && is_child(k, c) && c < n implies #[trigger]
            edge_ok(s, k, c) by {
                assert(c >= 2 * k + 1 >= 1);
            }
        }
    }
}

/// Adding an element to a heap through `heap_push` yields a heap holding
/// the old values and the new one.
pub proof fn lemma_heap_push<T: Priority>(v: Seq<T>, x: T)
    requires
        is_heap(v),
    ensures
        heap_push(v, x).len() == v.len() + 1,
        is_heap(heap_push(v, x)),
        heap_push(v, x).to_multiset() == v.to_multiset().insert(x),
{
    let s = v.push(x);
    let i = v.len() as int;
    let n = s.len() as int;
    assert(almost_heap_up(s, i)) by {
        assert forall|k: int, c: int|
            0 <= k && is_child(k, c) && c < n && c != i implies #[trigger] edge_ok(s, k, c) by {
            lemma_parent_child(c);
            lemma_child_parent(k);
            assert(k < c < i);
            assert(s[k] == v[k]);
            assert(s[c] == v[c]);
            assert(edge_ok(v, k, c));
        }
        if i > 0 {
            assert forall|c: int| is_child(i, c) && c < n implies #[trigger] edge_ok(
                s,
                (i - 1) / 2,
                c,
            ) by {
                assert(c >= 2 * i + 1 >= n);
            }
        }
    }
    lemma_sift_up(s, i);
    v.to_multiset_ensures();
}

/// In a heap prefix, the root has the greatest priority of the prefix.
pub proof fn lemma_heap_prefix_root_max<T: Priority>(v: Seq<T>, n: int, i: int)
    requires
        is_heap_prefix(v, n),
        0 <= i < n <= v.len(),
    ensures
        v[0].prio_spec() >= v[i].prio_spec(),
{
    lemma_root_subtree(i);
    lemma_subtree_dominated(v, n, 0, 0, i);
}

/// Splitting a sequence at `p` splits its multiset of values.
proof fn lemma_multiset_split<T>(s: Seq<T>, p: int)
    requires
        0 <= p <= s.len(),
    ensures
        s.to_multiset() == s.subrange(0, p).to_multiset().add(
            s.subrange(p, s.len() as int).to_multiset(),
        ),
{
    broadcast use vstd::multiset::group_multiset_axioms;

    assert(s =~= s.subrange(0, p) + s.subrange(p, s.len() as int));
    vstd::seq_lib::lemma_multiset_commutative(s.subrange(0, p), s.subrange(p, s.len() as int));
}

/// One pass of the heapsort loop over the first `n` slots: the root (the
/// prefix maximum) moves to slot `n - 1`, the heap shrinks by one, the
/// values are rearranged only within the prefix, and everything left in
/// the shorter prefix stays dominated by the extracted maximum.
proof fn lemma_heapsort_step<T: Priority>(s: Seq<T>, n: int)
    requires
        is_heap_prefix(s, n),
        1 <= n <= s.len(),
    ensures
        ({
            let t = sift_down_spec(swap_seq(s, 0, n - 1), 0, n - 1);
            &&& t.len() == s.len()
            &&& is_heap_prefix(t, n - 1)
            &&& t[n - 1] == s[0]
            &&& (forall|k: int| n <= k < s.len() ==> (#[trigger] t[k]) == s[k])
            &&& t.to_multiset() == s.to_multiset()
            &&& (forall|p: int|
                0 <= p < n - 1 ==> s[0].prio_spec() >= (#[trigger] t[p].prio_spec()))
        }),
{
    broadcast use vstd::multiset::group_multiset_axioms;

    let sw = swap_seq(s, 0, n - 1);
    let t = sift_down_spec(sw, 0, n - 1);
    lemma_swap_seq_multiset(s, 0, n - 1);
    if n == 1 {
        assert(t == sw);
        assert(sw =~= s);
    } else {
        assert(is_heap_from(sw, n - 1, 1)) by {
            assert forall|k: int, c: int| 1 <= k && is_child(k, c) && c < n - 1 implies #[trigger]
            edge_ok(sw, k, c) by {
                assert(edge_ok(s, k, c));
                assert(sw[k] == s[k]);
                assert(sw[c] == s[c]);
            }
        }
        lemma_sift_down(sw, 0, n - 1);
        assert(t[n - 1] == sw[n - 1]) by {
            assert(!(in_subtree(0, n - 1) && n - 1 < n - 1));
        }
        assert forall|k: int| n <= k < s.len() implies (#[trigger] t[k]) == s[k] by {
            assert(t[k] == sw[k]);
        }
        // every slot of the shorter prefix holds a value drawn from the
        // old prefix, all of which the old root dominates
        let st = t.subrange(0, n - 1);
        let ss = sw.subrange(0, n - 1);
        lemma_multiset_split(t, n - 1);
        lemma_multiset_split(sw, n - 1);
        assert(t.subrange(n - 1, t.len() as int) =~= sw.subrange(n - 1, sw.len() as int)) by {
            assert forall|k: int| 0 <= k < t.len() - (n - 1) implies (#[trigger] t.subrange(
                n - 1,
                t.len() as int,
            )[k]) == sw.subrange(n - 1, sw.len() as int)[k] by {
                if k > 0 {
                    assert(t[n - 1 + k] == sw[n - 1 + k]);
                }
            }
        }
        assert forall|x: T| st.to_multiset().count(x) == ss.to_multiset().count(x) by {
            assert(t.to_multiset().count(x) == st.to_multiset().count(x) + t.subrange(
                n - 1,
                t.len() as int,
            ).to_multiset().count(x));
            assert(sw.to_multiset().count(x) == ss.to_multiset().count(x) + sw.subrange(
                n - 1,
                sw.len() as int,
            ).to_multiset().count(x));
        }
        assert(st.to_multiset() =~= ss.to_multiset());
        st.to_multiset_ensures();
        ss.to_multiset_ensures();
        assert forall|p: int| 0 <= p < n - 1 implies s[0].prio_spec() >= (
        #[trigger] t[p].prio_spec()) by {
            assert(st[p] == t[p]);
            assert(st.contains(st[p]));
            assert(ss.to_multiset().count(st[p]) > 0);
            assert(ss.contains(st[p]));
            let q = choose|q: int| 0 <= q < ss.len() && ss[q] == st[p];
            assert(sw[q] == t[p]);
            if q == 0 {
                assert(sw[0] == s[n - 1]);
                lemma_heap_prefix_root_max(s, n, n - 1);
            } else {
                assert(sw[q] == s[q]);
                lemma_heap_prefix_root_max(s, n, q);
            }
        }
    }
}

/// Removing the root of a heap through `heap_pop` yields a heap holding
/// the remaining values, whose new root the old root dominates.
pub proof fn lemma_heap_pop<T: Priority>(v: Seq<T>)
    requires
        is_heap(v),
        v.len() >= 1,
    ensures
        heap_pop(v).len() == v.len() - 1,
        is_heap(heap_pop(v)),
        heap_pop(v).to_multiset() == v.to_multiset().remove(v[0]),
        forall|i: int|
            0 <= i < heap_pop(v).len() ==> v[0].prio_spec() >= (
            #[trigger] heap_pop(v)[i].prio_spec()),
{
    broadcast use vstd::multiset::group_multiset_axioms;

    let n = v.len() as int;
    let sw = swap_seq(v, 0, n - 1);
    let s2 = sw.drop_last();
    let t = sift_down_spec(s2, 0, n - 1);
    lemma_swap_seq_multiset(v, 0, n - 1);
    sw.to_multiset_ensures();
    assert(sw.remove(n - 1) =~= s2);
    assert(s2.to_multiset() == sw.to_multiset().remove(sw[n - 1]));
    assert(sw[n - 1] == v[0]);
    if n == 1 {
        assert(t == s2);
        assert(s2.len() == 0);
        assert(is_heap(t));
    } else {
        assert(is_heap_from(s2, n - 1, 1)) by {
            assert forall|k: int, c: int| 1 <= k && is_child(k, c) && c < n - 1 implies #[trigger]
            edge_ok(s2, k, c) by {
                assert(edge_ok(v, k, c));
                assert(s2[k] == v[k]);
                assert(s2[c] == v[c]);
            }
        }
        lemma_sift_down(s2, 0, n - 1);
        assert(is_heap(t));
        assert forall|i: int| 0 <= i < t.len() implies v[0].prio_spec() >= (
        #[trigger] t[i].prio_spec()) by {
            t.to_multiset_ensures();
            s2.to_multiset_ensures();
            assert(t.contains(t[i]));
            assert(s2.to_multiset().count(t[i]) > 0);
            assert(s2.contains(t[i]));
            let q = choose|q: int| 0 <= q < s2.len() && s2[q] == t[i];
            if q == 0 {
                lemma_heap_root_max(v, n - 1);
            } else {
                assert(s2[q] == v[q]);
                lemma_heap_root_max(v, q);
            }
        }
    }
}

/// Heapification processed down to index `k` finishes into a full heap
/// once the nodes at `k` and above already satisfy the heap property.
proof fn lemma_heapify_from<T: Priority>(s: Seq<T>, k: int)
    requires
        0 <= k <= s.len(),
        is_heap_from(s, s.len() as int, k),
    ensures
        heapify_from(s, k).len() == s.len(),
        is_heap(heapify_from(s, k)),
        heapify_from(s, k).to_multiset() == s.to_multiset(),
    decreases k,
{
    if k > 0 {
        let n = s.len() as int;
        lemma_sift_down(s, k - 1, n);
        lemma_heapify_from(sift_down_spec(s, k - 1, n), k - 1);
    }
}

/// Heapifying an arbitrary buffer yields a heap over the same values.
pub proof fn lemma_heapify<T: Priority>(s: Seq<T>)
    ensures
        heapify_spec(s).len() == s.len(),
        is_heap(heapify_spec(s)),
        heapify_spec(s).to_multiset() == s.to_multiset(),
{
    let n = s.len() as int;
    assert(2 * (n / 2) >= n - 1) by (nonlinear_arith);
    assert(is_heap_from(s, n, n / 2)) by {
        assert forall|k: int, c: int| n / 2 <= k && is_child(k, c) && c < n implies #[trigger]
        edge_ok(s, k, c) by {
            assert(c >= 2 * k + 1);
            assert(2 * k >= 2 * (n / 2)) by (nonlinear_arith)
                requires
                    k >= n / 2,
            ;
            assert(false);
        }
    }
    lemma_heapify_from(s, n / 2);
}

/// Sifting down from a node that already satisfies the heap property does
/// nothing.
proof fn lemma_sift_down_identity<T: Priority>(s: Seq<T>, i: int, n: int)
    requires
        n <= s.len(),
        is_heap_from(s, n, i),
        0 <= i,
    ensures
        sift_down_spec(s, i, n) == s,
{
    if i < n {
        let j = chosen_child(s, n, i);
        if j < n {
            assert(edge_ok(s, i, j));
        }
    }
}

/// Heapifying an intact heap changes nothing.
proof fn lemma_heapify_from_identity<T: Priority>(s: Seq<T>, k: int)
    requires
        0 <= k,
        is_heap(s),
    ensures
        heapify_from(s, k) == s,
    decreases k,
{
    if k > 0 {
        lemma_sift_down_identity(s, k - 1, s.len() as int);
        lemma_heapify_from_identity(s, k - 1);
    }
}

/// Heapifying a heap hands it back unchanged.
pub proof fn lemma_heapify_of_heap<T: Priority>(s: Seq<T>)
    requires
        is_heap(s),
    ensures
        heapify_spec(s) == s,
{
    lemma_heapify_from_identity(s, s.len() as int / 2);
}

/// A sequence sorted by non-increasing priority is a heap: every parent
/// comes before its children.
pub proof fn lemma_sorted_desc_is_heap<T: Priority>(s: Seq<T>)
    requires
        sorted_desc(s),
    ensures
        is_heap(s),
{
    assert forall|k: int, c: int|
        0 <= k && is_child(k, c) && c < s.len() as int implies #[trigger] edge_ok(s, k, c) by {
        assert(k <= c);
        assert(s[k].prio_spec() >= s[c].prio_spec());
    }
}

/// Greatest-priority-first across a whole removal sequence: after any
/// number of removals the prefix is still a heap, and the next removal's
/// result never beats the one before it in priority.
pub proof fn lemma_removals_non_increasing<T: Priority>(v: Seq<T>, k: int)
    requires
        is_heap(v),
        0 <= k,
        k + 1 < v.len(),
    ensures
        is_heap(heap_pops(v, k)),
        heap_pops(v, k).len() == v.len() - k,
        heap_pops(v, k + 1)[0].prio_spec() <= heap_pops(v, k)[0].prio_spec(),
    decreases k,
{
    if k == 0 {
        assert(heap_pops(v, 0) == v);
        lemma_heap_pop(v);
        lemma_heap_pops_snoc(v, 0);
    } else {
        lemma_removals_non_increasing(v, k - 1);
        lemma_heap_pops_snoc(v, k - 1);
        lemma_heap_pop(heap_pops(v, k - 1));
        lemma_heap_pops_snoc(v, k);
        lemma_heap_pop(heap_pops(v, k));
    }
}

/// `k + 1` removals are `k` removals followed by one more.
proof fn lemma_heap_pops_snoc<T: Priority>(v: Seq<T>, k: int)
    requires
        k >= 0,
    ensures
        heap_pops(v, k + 1) == heap_pop(heap_pops(v, k)),
    decreases k,
{
    if k == 0 {
        assert(heap_pops(heap_pop(v), 0) == heap_pop(v));
        assert(heap_pops(v, 0) == v);
    } else {
        lemma_heap_pops_snoc(heap_pop(v), k - 1);
        assert(heap_pops(v, k) == heap_pops(heap_pop(v), k - 1));
        assert(heap_pops(v, k + 1) == heap_pops(heap_pop(v), k));
    }
}

/// Adding `xs` and then `x` is adding `xs.push(x)`.
proof fn lemma_heap_pushes_snoc<T: Priority>(v: Seq<T>, xs: Seq<T>, x: T)
    ensures
        heap_pushes(v, xs.push(x)) == heap_push(heap_pushes(v, xs), x),
    decreases xs.len(),
{
    if xs.len() == 0 {
        assert(xs.push(x).drop_first() =~= Seq::<T>::empty());
        assert(xs.push(x).first() == x);
        assert(heap_pushes(v, xs.push(x)) == heap_pushes(
            heap_push(v, x),
            xs.push(x).drop_first(),
        ));
        assert(heap_pushes(heap_push(v, x), xs.push(x).drop_first()) == heap_push(v, x));
        assert(heap_pushes(v, xs) == v);
    } else {
        assert(xs.push(x).first() == xs.first());
        assert(xs.push(x).drop_first() =~= xs.drop_first().push(x));
        lemma_heap_pushes_snoc(heap_push(v, xs.first()), xs.drop_first(), x);
        assert(heap_pushes(v, xs.push(x)) == heap_pushes(
            heap_push(v, xs.first()),
            xs.push(x).drop_first(),
        ));
        assert(heap_pushes(v, xs) == heap_pushes(heap_push(v, xs.first()), xs.drop_first()));
    }
}

/// Exchanges the values of two buffer slots.
fn swap_slots<T>(buf: &mut Vec<Option<T>>, a: usize, b: usize)
    requires
        a < old(buf)@.len(),
        b < old(buf)@.len(),
    ensures
        final(buf)@ == old(buf)@.update(a as int, old(buf)@[b as int]).update(
            b as int,
            old(buf)@[a as int],
        ),
{
    let x = buf[a].take();
    let y = buf[b].take();
    buf.set(a, y);
    buf.set(b, x);
    proof {
        assert(buf@ =~= old(buf)@.update(a as int, old(buf)@[b as int]).update(
            b as int,
            old(buf)@[a as int],
        ));
    }
}

/// A fixed-size greatest-priority-first container.
///
/// The occupied slots are `data[..len]`, kept as a binary max-heap in
/// array order.  Free slots hold `None`.
pub struct PrioQueue<T: Priority> {
    data: Vec<Option<T>>,
    len: usize,
}

impl<T: Priority> PrioQueue<T> {
    /// The buffer shape is sound: the occupied prefix holds values.
    spec fn buf_wf(&self) -> bool {
        &&& self.len as int <= self.data@.len()
        &&& forall|i: int| 0 <= i < self.len as int ==> (#[trigger] self.data@[i]) is Some
    }

    /// The occupied prefix, in array order.
    spec fn raw(&self) -> Seq<T> {
        Seq::new(self.len as nat, |i: int| self.data@[i].unwrap())
    }

    /// The container invariant: the occupied prefix always satisfies the
    /// max-heap property.
    pub proof fn lemma_wf_heap(&self)
        requires
            self.wf(),
        ensures
            is_heap(self.contents()),
    {
    }

    /// One sift-down pass from `idx` over the first `n` occupied slots.
    fn sift_down(&mut self, idx: usize, n: usize)
        requires
            old(self).buf_wf(),
            n <= old(self).len,
        ensures
            final(self).buf_wf(),
            final(self).len == old(self).len,
            final(self).data@.len() == old(self).data@.len(),
            final(self).raw() == sift_down_spec(old(self).raw(), idx as int, n as int),
    {
        let ghost orig = self.raw();
        let mut i: usize = idx;
        let mut done = false;
        while !done
            invariant
                self.buf_wf(),
                self.len == old(self).len,
                self.data@.len() == old(self).data@.len(),
                n <= self.len,
                !done ==> sift_down_spec(orig, idx as int, n as int) == sift_down_spec(
                    self.raw(),
                    i as int,
                    n as int,
                ),
                done ==> self.raw() == sift_down_spec(orig, idx as int, n as int),
            decreases (if (i as int) < n as int {
                n as int - i
            } else {
                0int
            }), (if done {
                0int
            } else {
                1int
            }),
        {
            if i >= n / 2 {
                proof {
                    assert(2 * (n as int / 2) >= n as int - 1) by (nonlinear_arith);
                    assert(sift_down_spec(self.raw(), i as int, n as int) == self.raw());
                }
                done = true;
            } else {
                proof {
                    assert(2 * (n as int / 2) <= n as int) by (nonlinear_arith);
                }
                let l = 2 * i + 1;
                let r = l + 1;
                let j = if r < n && self.data[l].as_ref().unwrap().le_prio(
                    self.data[r].as_ref().unwrap(),
                ) {
                    r
                } else {
                    l
                };
                proof {
                    assert(j as int == chosen_child(self.raw(), n as int, i as int));
                }
                if self.data[j].as_ref().unwrap().gt_prio(self.data[i].as_ref().unwrap()) {
                    let ghost prev = self.raw();
                    swap_slots(&mut self.data, i, j);
                    proof {
                        assert(self.raw() =~= swap_seq(prev, i as int, j as int));
                        assert(sift_down_spec(prev, i as int, n as int) == sift_down_spec(
                            self.raw(),
                            j as int,
                            n as int,
                        ));
                    }
                    i = j;
                } else {
                    proof {
                        assert(sift_down_spec(self.raw(), i as int, n as int) == self.raw());
                    }
                    done = true;
                }
            }
        }
    }

    /// One sift-up pass from `idx`.
    fn sift_up(&mut self, idx: usize)
        requires
            old(self).buf_wf(),
            idx < old(self).len,
        ensures
            final(self).buf_wf(),
            final(self).len == old(self).len,
            final(self).data@.len() == old(self).data@.len(),
            final(self).raw() == sift_up_spec(old(self).raw(), idx as int),
    {
        let ghost orig = self.raw();
        let mut i: usize = idx;
        let mut done = false;
        while !done
            invariant
                self.buf_wf(),
                self.len == old(self).len,
                self.data@.len() == old(self).data@.len(),
                i < self.len,
                !done ==> sift_up_spec(orig, idx as int) == sift_up_spec(self.raw(), i as int),
                done ==> self.raw() == sift_up_spec(orig, idx as int),
            decreases i, (if done {
                0int
            } else {
                1int
            }),
        {
            if i == 0 {
                proof {
                    assert(sift_up_spec(self.raw(), 0) == self.raw());
                }
                done = true;
            } else {
                let p = (i - 1) / 2;
                proof {
                    lemma_parent_child(i as int);
                }
                if self.data[i].as_ref().unwrap().gt_prio(self.data[p].as_ref().unwrap()) {
                    let ghost prev = self.raw();
                    swap_slots(&mut self.data, i, p);
                    proof {
                        assert(self.raw() =~= swap_seq(prev, i as int, p as int));
                        assert(sift_up_spec(prev, i as int) == sift_up_spec(
                            self.raw(),
                            p as int,
                        ));
                    }
                    i = p;
                } else {
                    proof {
                        assert(sift_up_spec(self.raw(), i as int) == self.raw());
                    }
                    done = true;
                }
            }
        }
    }

    /// Swaps the root with the last occupied slot, shrinks the heap by
    /// one, sifts the replacement down, and returns the old root.
    fn pop_step(&mut self) -> (r: T)
        requires
            old(self).buf_wf(),
            is_heap(old(self).raw()),
            old(self).len > 0,
        ensures
            final(self).buf_wf(),
            final(self).len == old(self).len - 1,
            final(self).data@.len() == old(self).data@.len(),
            r == old(self).raw()[0],
            final(self).raw() == heap_pop(old(self).raw()),
            is_heap(final(self).raw()),
            final(self).raw().to_multiset() == old(self).raw().to_multiset().remove(r),
    {
        let ghost orig = self.raw();
        let n = self.len;
        swap_slots(&mut self.data, 0, n - 1);
        let v = self.data[n - 1].take();
        self.len = n - 1;
        proof {
            assert(self.raw() =~= swap_seq(orig, 0, n as int - 1).drop_last());
            assert(v == Option::Some(orig[0]));
        }
        self.sift_down(0, n - 1);
        proof {
            lemma_heap_pop(orig);
            assert(self.raw() == heap_pop(orig));
        }
        v.unwrap()
    }

    /// Places `value` in the first free slot and sifts it up.
    fn push_step(&mut self, value: T)
        requires
            old(self).buf_wf(),
            is_heap(old(self).raw()),
            (old(self).len as int) < old(self).data@.len(),
        ensures
            final(self).buf_wf(),
            final(self).len == old(self).len + 1,
            final(self).data@.len() == old(self).data@.len(),
            final(self).raw() == heap_push(old(self).raw(), value),
            is_heap(final(self).raw()),
            final(self).raw().to_multiset() == old(self).raw().to_multiset().insert(value),
    {
        let ghost orig = self.raw();
        let cap = self.data.len();
        let i = self.len;
        self.data.set(i, Option::Some(value));
        self.len = i + 1;
        proof {
            assert(self.raw() =~= orig.push(value));
        }
        self.sift_up(i);
        proof {
            lemma_heap_push(orig, value);
        }
    }

    /// Re-establishes the heap ordering over the occupied prefix by a
    /// full bottom-up pass.  The container maintains that ordering
    /// through every operation already, so the contents come back
    /// unchanged.
    pub fn heapify(&mut self)
        requires
            old(self).wf(),
        ensures
            final(self).wf(),
            final(self).cap_spec() == old(self).cap_spec(),
            final(self).contents() == old(self).contents(),
    {
        let ghost base = self.raw();
        let n = self.len;
        let mut k: usize = n / 2;
        while k > 0
            invariant
                self.buf_wf(),
                self.len == n,
                self.data@.len() == old(self).data@.len(),
                heapify_from(base, n as int / 2) == heapify_from(self.raw(), k as int),
            decreases k,
        {
            k = k - 1;
            let ghost prev = self.raw();
            self.sift_down(k, n);
            proof {
                assert(heapify_from(prev, k + 1) == heapify_from(self.raw(), k as int));
            }
        }
        proof {
            assert(self.raw() == heapify_spec(base));
            lemma_heapify_of_heap(base);
        }
    }

    /// Sorts the occupied prefix into descending priority order in
    /// place: an in-place heapsort pass followed by a reversal.  The
    /// length and the multiset of elements are unchanged, and the prefix
    /// satisfies the max-heap property again afterwards, since a fully
    /// descending array is trivially a max-heap.  Costs O(n log n);
    /// meant for ordered inspection, never for the O(log n) paths.
    pub fn sort(&mut self)
        requires
            old(self).wf(),
        ensures
            final(self).wf(),
            final(self).cap_spec() == old(self).cap_spec(),
            final(self).contents().len() == old(self).contents().len(),
            final(self).contents().to_multiset() == old(self).contents().to_multiset(),
            sorted_desc(final(self).contents()),
    {
        let ghost orig = self.raw();
        let n = self.len;
        let mut i: usize = n;
        while i > 1
            invariant
                self.buf_wf(),
                self.len == n,
                self.data@.len() == old(self).data@.len(),
                i <= n,
                n > 0 ==> i >= 1,
                is_heap_prefix(self.raw(), i as int),
                self.raw().to_multiset() == orig.to_multiset(),
                forall|a: int, b: int|
                    i as int <= a <= b < n as int ==> (#[trigger] self.raw()[a].prio_spec()) <= (
                    #[trigger] self.raw()[b].prio_spec()),
                forall|a: int, b: int|
                    0 <= a < i as int <= b < n as int ==> (#[trigger] self.raw()[a].prio_spec())
                        <= (#[trigger] self.raw()[b].prio_spec()),
            decreases i,
        {
            let newn = i - 1;
            let ghost prev = self.raw();
            swap_slots(&mut self.data, 0, newn);
            proof {
                assert(self.raw() =~= swap_seq(prev, 0, newn as int));
            }
            self.sift_down(0, newn);
            proof {
                lemma_heapsort_step(prev, i as int);
                assert(self.raw() == sift_down_spec(
                    swap_seq(prev, 0, i as int - 1),
                    0,
                    i as int - 1,
                ));
            }
            i = newn;
        }
        proof {
            assert forall|a: int, b: int|
                0 <= a <= b < n as int implies (#[trigger] self.raw()[a].prio_spec()) <= (
            #[trigger] self.raw()[b].prio_spec()) by {
                if a < i as int && b >= i as int {
                } else if a >= i as int {
                } else {
                    assert(a == 0 && b == 0);
                }
            }
        }
        let ghost mid = self.raw();
        let mut a: usize = 0;
        let mut b: usize = n;
        while a + 1 < b
            invariant
                self.buf_wf(),
                self.len == n,
                self.data@.len() == old(self).data@.len(),
                a <= b,
                b <= n,
                a + b == n,
                forall|k: int|
                    a as int <= k < b as int ==> (#[trigger] self.raw()[k]) == mid[k],
                forall|k: int|
                    0 <= k < a as int ==> (#[trigger] self.raw()[k]) == mid[n - 1 - k],
                forall|k: int|
                    b as int <= k < n as int ==> (#[trigger] self.raw()[k]) == mid[n - 1 - k],
            decreases b - a,
        {
            let ghost prev2 = self.raw();
            swap_slots(&mut self.data, a, b - 1);
            proof {
                assert(self.raw() =~= swap_seq(prev2, a as int, b as int - 1));
            }
            a = a + 1;
            b = b - 1;
        }
        proof {
            assert(self.raw() =~= mid.reverse());
            mid.lemma_reverse_to_multiset();
            assert(sorted_desc(self.raw())) by {
                assert forall|p: int, q: int|
                    0 <= p <= q < n as int implies (#[trigger] self.raw()[p].prio_spec()) >= (
                #[trigger] self.raw()[q].prio_spec()) by {
                    assert(self.raw()[p] == mid[n - 1 - p]);
                    assert(self.raw()[q] == mid[n - 1 - q]);
                    assert(mid[n - 1 - q].prio_spec() <= mid[n - 1 - p].prio_spec());
                }
            }
            lemma_sorted_desc_is_heap(self.raw());
        }
    }

    /// Returns the element in slot `i` of the occupied prefix, in the
    /// array order an inspection pass reads (descending priority right
    /// after `sort`).
    pub fn get(&self, i: usize) -> (r: &T)
        requires
            self.wf(),
            (i as int) < self.contents().len(),
        ensures
            *r == self.contents()[i as int],
    {
        self.data[i].as_ref().unwrap()
    }
}

impl<T: Priority> ContainerImpl<T> for PrioQueue<T> {
    closed spec fn contents(&self) -> Seq<T> {
        self.raw()
    }

    closed spec fn cap_spec(&self) -> int {
        self.data@.len() as int
    }

    closed spec fn wf(&self) -> bool {
        self.buf_wf() && is_heap(self.raw())
    }

    open spec fn front_of(v: Seq<T>) -> T {
        v[0]
    }

    open spec fn after_add(v: Seq<T>, x: T) -> Seq<T> {
        heap_push(v, x)
    }

    open spec fn after_remove(v: Seq<T>) -> Seq<T> {
        heap_pop(v)
    }

    open spec fn initial_contents(data: Seq<T>) -> Seq<T> {
        heapify_spec(data)
    }

    open spec fn after_removes_n(v: Seq<T>, k: int) -> Seq<T> {
        heap_pops(v, k)
    }

    open spec fn after_extend(v: Seq<T>, xs: Seq<T>) -> Seq<T> {
        heap_pushes(v, xs)
    }

    proof fn lemma_wf_len_bounds(&self) {
    }

    proof fn lemma_after_removes_n_unfold(v: Seq<T>, k: int) {
        assert(heap_pops(v, 0) == v);
        if k >= 1 {
            assert(heap_pops(v, k) == heap_pops(heap_pop(v), k - 1));
        }
    }

    proof fn lemma_after_extend_unfold(v: Seq<T>, xs: Seq<T>) {
        if xs.len() == 0 {
            assert(heap_pushes(v, xs) == v);
        } else {
            assert(heap_pushes(v, xs) == heap_pushes(heap_push(v, xs.first()), xs.drop_first()));
        }
    }

    fn impl_construct(mut data: Vec<T>, cap: usize) -> (c: Self) {
        let ghost orig = data@;
        let n = data.len();
        let mut buf: Vec<Option<T>> = Vec::new();
        let mut i: usize = 0;
        while i < n
            invariant
                i <= n,
                n as int == orig.len(),
                data@ == orig.skip(i as int),
                buf@.len() == i as int,
                forall|j: int|
                    0 <= j < i as int ==> (#[trigger] buf@[j]) == Option::Some(orig[j]),
            decreases n - i,
        {
            let v = data.remove(0);
            proof {
                assert(orig.skip(i as int).drop_first() =~= orig.skip(i + 1));
                assert(v == orig[i as int]);
            }
            buf.push(Option::Some(v));
            i = i + 1;
        }
        while i < cap
            invariant
                n <= i,
                i <= cap,
                n as int == orig.len(),
                buf@.len() == i as int,
                forall|j: int|
                    0 <= j < n as int ==> (#[trigger] buf@[j]) == Option::Some(orig[j]),
            decreases cap - i,
        {
            buf.push(Option::None);
            i = i + 1;
        }
        let mut c = PrioQueue { data: buf, len: n };
        proof {
            assert(c.raw() =~= orig);
        }
        let ghost base = c.raw();
        let mut k: usize = n / 2;
        while k > 0
            invariant
                c.buf_wf(),
                c.len == n,
                c.data@.len() == cap as int,
                heapify_from(base, n as int / 2) == heapify_from(c.raw(), k as int),
            decreases k,
        {
            k = k - 1;
            let ghost prev = c.raw();
            c.sift_down(k, n);
            proof {
                assert(heapify_from(prev, k + 1) == heapify_from(c.raw(), k as int));
            }
        }
        proof {
            assert(c.raw() == heapify_spec(base));
            lemma_heapify(base);
        }
        c
    }

    fn impl_len(&self) -> (r: usize) {
        self.len
    }

    fn impl_capacity(&self) -> (r: usize) {
        self.data.len()
    }

    fn impl_is_empty(&self) -> (r: bool) {
        self.len == 0
    }

    fn impl_is_full(&self) -> (r: bool) {
        self.len == self.data.len()
    }

    fn impl_peek(&self) -> (r: &T) {
        self.data[0].as_ref().unwrap()
    }

    fn impl_remove(&mut self) -> (r: T) {
        let ghost orig = self.raw();
        let v = self.pop_step();
        proof {
            broadcast use vstd::multiset::group_multiset_axioms;

            orig.to_multiset_ensures();
            assert(orig.contains(orig[0]));
            assert(orig.to_multiset() =~= self.raw().to_multiset().insert(v));
        }
        v
    }

    fn impl_forget(&mut self, n: usize) -> (r: usize) {
        let ghost orig = self.raw();
        let ghost cap0 = self.data@.len();
        let len = self.len;
        let r = if n <= len {
            n
        } else {
            len
        };
        let mut t: usize = 0;
        while t < r
            invariant
                self.buf_wf(),
                is_heap(self.raw()),
                t <= r,
                r <= len,
                len as int == orig.len(),
                self.len as int == len - t,
                self.data@.len() == cap0,
                self.raw() == heap_pops(orig, t as int),
            decreases r - t,
        {
            let _discard = self.pop_step();
            proof {
                lemma_heap_pops_snoc(orig, t as int);
            }
            t = t + 1;
        }
        r
    }

    fn impl_add(&mut self, value: T) {
        self.push_step(value);
    }

    fn impl_extend(&mut self, values: &[T]) -> (r: usize) where T: Copy {
        let ghost orig = self.raw();
        let cap = self.data.len();
        let len = self.len;
        let avail = cap - len;
        let r = if values.len() <= avail {
            values.len()
        } else {
            avail
        };
        proof {
            assert(values@.subrange(0, 0) =~= Seq::<T>::empty());
        }
        let mut j: usize = 0;
        while j < r
            invariant
                self.buf_wf(),
                is_heap(self.raw()),
                j <= r,
                r as int <= values@.len(),
                r <= avail,
                avail + len == cap,
                cap as int == self.data@.len(),
                len as int == orig.len(),
                self.len as int == len + j,
                self.raw() == heap_pushes(orig, values@.subrange(0, j as int)),
            decreases r - j,
        {
            self.push_step(values[j]);
            proof {
                assert(values@.subrange(0, j + 1) =~= values@.subrange(0, j as int).push(
                    values@[j as int],
                ));
                lemma_heap_pushes_snoc(orig, values@.subrange(0, j as int), values@[j as int]);
            }
            j = j + 1;
        }
        r
    }

    fn impl_clear(&mut self) {
        let len = self.len;
        let ghost cap0 = self.data@.len();
        let mut i: usize = 0;
        while i < len
            invariant
                i <= len,
                len <= self.data@.len(),
                self.data@.len() == cap0,
                self.len == len,
            decreases len - i,
        {
            self.data.set(i, Option::None);
            i = i + 1;
        }
        self.len = 0;
        proof {
            assert(self.raw() =~= Seq::<T>::empty());
        }
    }

    fn impl_copy(&mut self, new_cap: usize) {
        let ghost pre = *self;
        let len = self.len;
        let mut buf: Vec<Option<T>> = Vec::new();
        let mut i: usize = 0;
        while i < new_cap
            invariant
                i <= new_cap,
                buf@.len() == i as int,
                forall|j: int| 0 <= j < i as int ==> (#[trigger] buf@[j]) is None,
            decreases new_cap - i,
        {
            buf.push(Option::None);
            i = i + 1;
        }
        let mut k: usize = 0;
        while k < len
            invariant
                k <= len,
                len == self.len,
                len as int <= self.data@.len(),
                self.data@.len() == pre.data@.len(),
                len <= new_cap,
                buf@.len() == new_cap as int,
                forall|j: int|
                    0 <= j < k as int ==> (#[trigger] buf@[j]) == pre.data@[j],
                forall|j: int|
                    k as int <= j < new_cap as int ==> (#[trigger] buf@[j]) is None,
                forall|j: int|
                    k as int <= j < len as int ==> (#[trigger] self.data@[j]) == pre.data@[j],
            decreases len - k,
        {
            let v = self.data[k].take();
            buf.set(k, v);
            k = k + 1;
        }
        self.data = buf;
        proof {
            assert(self.raw() =~= pre.raw());
        }
    }
}

} // verus!
