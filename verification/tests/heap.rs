use fixedcap::container::Container;
use fixedcap::prio_queue::PrioQueue;
use fixedcap::priority::Priority;
use fixedcap::priority::prio_max;
use fixedcap::priority::prio_min;

#[test]
fn heap_removes_greatest_first() {
    let mut q: PrioQueue<u64> = Container::from_empty(8);
    for v in [5u64, 1, 9, 3, 7, 2] {
        q.add_or_panic(v, "");
    }
    assert_eq!(q.remove(), Some(9));
    assert_eq!(q.remove(), Some(7));
    assert_eq!(q.remove(), Some(5));
    assert_eq!(q.remove(), Some(3));
    assert_eq!(q.remove(), Some(2));
    assert_eq!(q.remove(), Some(1));
    assert_eq!(q.remove(), None);
}

#[test]
fn heap_removal_priorities_never_increase() {
    let mut q: PrioQueue<u32> = Container::from_empty(16);
    for v in [3u32, 3, 14, 1, 59, 26, 5, 35, 8, 9, 79, 3] {
        q.add_or_panic(v, "");
    }
    let mut last = u32::MAX;
    while let Some(v) = q.remove() {
        assert!(v <= last);
        last = v;
    }
    assert!(q.is_empty());
}

#[test]
fn heap_from_full_heapifies() {
    let mut q: PrioQueue<u8> = Container::from_full(vec![3, 1, 4, 1, 5]);
    assert!(q.is_full());
    assert_eq!(q.remove(), Some(5));
    assert_eq!(q.remove(), Some(4));
    assert_eq!(q.remove(), Some(3));
    assert_eq!(q.remove(), Some(1));
    assert_eq!(q.remove(), Some(1));
}

#[test]
fn heap_peek_shows_maximum() {
    let mut q: PrioQueue<u16> = Container::from_empty(4);
    assert!(q.peek().is_none());
    q.add_or_panic(2, "");
    assert_eq!(*q.peek().unwrap(), 2);
    q.add_or_panic(10, "");
    assert_eq!(*q.peek().unwrap(), 10);
    q.add_or_panic(6, "");
    assert_eq!(*q.peek_or_panic(""), 10);
}

#[test]
fn heap_forget_evicts_the_greatest() {
    let mut q: PrioQueue<u8> = Container::from_full(vec![6, 2, 9, 4, 7]);
    assert_eq!(q.forget(2), 2);
    assert_eq!(q.len(), 3);
    // the two largest are gone
    assert_eq!(q.remove(), Some(6));
    assert_eq!(q.remove(), Some(4));
    assert_eq!(q.remove(), Some(2));
}

#[test]
fn heap_forget_matches_removes() {
    let mut a: PrioQueue<u8> = Container::from_full(vec![6, 2, 9, 4, 7]);
    let mut b: PrioQueue<u8> = Container::from_full(vec![6, 2, 9, 4, 7]);
    assert_eq!(a.forget(3), 3);
    b.remove();
    b.remove();
    b.remove();
    assert_eq!(a.len(), b.len());
    assert_eq!(a.remove(), b.remove());
    assert_eq!(a.remove(), b.remove());
}

#[test]
fn heap_extend_then_drain() {
    let mut q: PrioQueue<u64> = Container::from_empty(4);
    q.add_or_panic(5, "");
    let copied = q.extend(&[8, 1, 12, 3]);
    assert_eq!(copied, 3);
    assert!(q.is_full());
    assert_eq!(q.remove(), Some(12));
    assert_eq!(q.remove(), Some(8));
    assert_eq!(q.remove(), Some(5));
    assert_eq!(q.remove(), Some(1));
}

#[test]
fn heap_sort_orders_and_preserves() {
    let mut q: PrioQueue<u8> = Container::from_empty(8);
    for v in [4u8, 9, 1, 7, 7, 2] {
        q.add_or_panic(v, "");
    }
    let before = q.len();
    q.sort();
    assert_eq!(q.len(), before);
    let mut counts = [0usize; 10];
    for i in 0..q.len() {
        let v = *q.get(i);
        counts[v as usize] += 1;
        if i > 0 {
            assert!(*q.get(i - 1) >= v);
        }
    }
    assert_eq!(counts[4], 1);
    assert_eq!(counts[9], 1);
    assert_eq!(counts[1], 1);
    assert_eq!(counts[7], 2);
    assert_eq!(counts[2], 1);
    // the heap is still intact: removals stay greatest-first
    assert_eq!(q.remove(), Some(9));
    assert_eq!(q.remove(), Some(7));
    assert_eq!(q.remove(), Some(7));
    assert_eq!(q.remove(), Some(4));
    assert_eq!(q.remove(), Some(2));
    assert_eq!(q.remove(), Some(1));
}

#[test]
fn heap_heapify_keeps_contents() {
    let mut q: PrioQueue<u8> = Container::from_full(vec![2, 8, 5]);
    let before = q.len();
    q.heapify();
    assert_eq!(q.len(), before);
    assert_eq!(q.remove(), Some(8));
    assert_eq!(q.remove(), Some(5));
    assert_eq!(q.remove(), Some(2));
}

#[test]
fn heap_move_data_keeps_draining_order() {
    let mut q: PrioQueue<u8> = Container::from_full(vec![3, 9, 6]);
    q.move_data(5);
    assert_eq!(q.capacity(), 5);
    assert_eq!(q.remove(), Some(9));
    assert_eq!(q.remove(), Some(6));
    assert_eq!(q.remove(), Some(3));
}

#[test]
fn prio_min_max_exact_values() {
    assert_eq!(prio_min(3u64, 8u64), 3);
    assert_eq!(prio_max(3u64, 8u64), 8);
    assert_eq!(prio_min(5u32, 5u32), 5);
    assert_eq!(prio_max(5u32, 5u32), 5);
    assert_eq!(prio_min(-4i64, 2i64), -4);
    assert_eq!(prio_max(-4i64, 2i64), 2);
    assert_eq!(prio_min(-9i8, -2i8), -9);
    assert_eq!(prio_max(-9i8, -2i8), -2);
}

#[test]
fn priority_comparison_helpers() {
    assert!(2u64.lt_prio(&5u64));
    assert!(5u64.gt_prio(&2u64));
    assert!(2u64.le_prio(&2u64));
    assert!(2u64.ge_prio(&2u64));
    assert!(2u64.eq_prio(&2u64));
    assert!(2u64.ne_prio(&3u64));
    assert_eq!(2u64.cmp_prio(&5u64), std::cmp::Ordering::Less);
    assert_eq!(5u64.cmp_prio(&5u64), std::cmp::Ordering::Equal);
    assert_eq!(7u64.cmp_prio(&5u64), std::cmp::Ordering::Greater);
}

#[test]
fn signed_priorities_follow_numeric_order() {
    assert!((-5i64).lt_prio(&3i64));
    assert!((-1i32).gt_prio(&-7i32));
    assert!(i64::MIN.lt_prio(&i64::MAX));
    assert!((-3i16).le_prio(&-3i16));
    let mut q: PrioQueue<i32> = Container::from_empty(4);
    for v in [-5, 3, -1, 0] {
        q.add_or_panic(v, "");
    }
    assert_eq!(q.remove(), Some(3));
    assert_eq!(q.remove(), Some(0));
    assert_eq!(q.remove(), Some(-1));
    assert_eq!(q.remove(), Some(-5));
}

#[test]
fn heap_capacity_never_changes() {
    let mut q: PrioQueue<u8> = Container::from_empty(3);
    for v in 0..6u8 {
        q.try_add(v);
        assert!(q.len() <= q.capacity());
        assert_eq!(q.capacity(), 3);
    }
}
