use fixedcap::container::Container;
use fixedcap::queue::Queue;
use fixedcap::stack::Stack;

#[test]
fn stack_lifo_order() {
    let mut s: Stack<u64> = Container::from_empty(3);
    assert!(s.is_empty());
    assert_eq!(s.capacity(), 3);
    s.add_or_panic(10, "");
    s.add_or_panic(20, "");
    s.add_or_panic(30, "");
    assert!(s.is_full());
    assert_eq!(s.remove(), Some(30));
    assert_eq!(s.remove(), Some(20));
    assert_eq!(s.remove(), Some(10));
    assert_eq!(s.remove(), None);
    assert!(s.is_empty());
}

#[test]
fn stack_from_full_removal_order() {
    let mut s: Stack<u32> = Container::from_full(vec![1, 2, 3]);
    assert!(s.is_full());
    assert_eq!(s.len(), 3);
    assert_eq!(s.remove(), Some(1));
    assert_eq!(s.remove(), Some(2));
    assert_eq!(s.remove(), Some(3));
}

#[test]
fn stack_peek_does_not_mutate() {
    let mut s: Stack<u8> = Container::from_empty(2);
    assert!(s.peek().is_none());
    s.add_or_panic(7, "");
    assert_eq!(*s.peek().unwrap(), 7);
    assert_eq!(*s.peek_or_panic(""), 7);
    assert_eq!(s.len(), 2 - 1);
}

#[test]
fn peek_mut_edits_the_front() {
    let mut s: Stack<u8> = Container::from_full(vec![1, 2, 3]);
    *s.peek_mut() = 9;
    assert_eq!(s.remove(), Some(9));
    assert_eq!(s.remove(), Some(2));
    let mut q: Queue<u8> = Container::from_full(vec![4, 5, 6]);
    *q.peek_mut() = 7;
    assert_eq!(q.remove(), Some(7));
    assert_eq!(q.remove(), Some(5));
}

#[test]
fn stack_forget_matches_removes() {
    let mut a: Stack<u16> = Container::from_empty(5);
    let mut b: Stack<u16> = Container::from_empty(5);
    for v in [4u16, 8, 15, 16] {
        a.add_or_panic(v, "");
        b.add_or_panic(v, "");
    }
    let forgotten = a.forget(3);
    assert_eq!(forgotten, 3);
    b.remove();
    b.remove();
    b.remove();
    assert_eq!(a.len(), b.len());
    assert_eq!(a.remove(), b.remove());
    // asking for more than the stack holds trims it empty
    let mut c: Stack<u16> = Container::from_full(vec![1, 2]);
    assert_eq!(c.forget(10), 2);
    assert!(c.is_empty());
}

#[test]
fn stack_extend_copies_what_fits() {
    let mut s: Stack<u64> = Container::from_empty(4);
    s.add_or_panic(99, "");
    let copied = s.extend(&[1, 2, 3, 4, 5]);
    assert_eq!(copied, 3);
    assert!(s.is_full());
    assert_eq!(s.remove(), Some(3));
    assert_eq!(s.remove(), Some(2));
    assert_eq!(s.remove(), Some(1));
    assert_eq!(s.remove(), Some(99));
}

#[test]
fn stack_get_reads_top_down() {
    let mut s: Stack<u8> = Container::from_empty(3);
    s.add_or_panic(1, "");
    s.add_or_panic(2, "");
    s.add_or_panic(3, "");
    assert_eq!(*s.get(0), 3);
    assert_eq!(*s.get(1), 2);
    assert_eq!(*s.get(2), 1);
}

#[test]
fn stack_move_data_keeps_contents() {
    let mut s: Stack<u8> = Container::from_full(vec![5, 6, 7]);
    s.move_data(6);
    assert_eq!(s.capacity(), 6);
    assert_eq!(s.len(), 3);
    assert_eq!(s.remove(), Some(5));
    assert_eq!(s.remove(), Some(6));
    assert_eq!(s.remove(), Some(7));
}

#[test]
fn zeroing_variants_match_plain_ones() {
    let mut s: Stack<u8> = Container::from_full(vec![1, 2, 3]);
    assert_eq!(s.remove_and_zero(), Some(1));
    assert_eq!(s.remove_and_zero_or_panic(""), 2);
    assert_eq!(s.forget_and_zero(5), 1);
    assert!(s.is_empty());
    assert_eq!(s.remove_and_zero(), None);
    let mut q: Queue<u8> = Container::from_full(vec![4, 5, 6]);
    q.move_data_and_zero(5);
    assert_eq!(q.capacity(), 5);
    assert_eq!(q.remove_and_zero(), Some(4));
    q.clear_and_zero();
    assert!(q.is_empty());
}

#[test]
fn extend_or_panic_copies_all() {
    let mut s: Stack<u8> = Container::from_empty(4);
    s.extend_or_panic(&[1, 2, 3], "");
    assert_eq!(s.len(), 3);
    assert_eq!(s.remove(), Some(3));
}

#[test]
fn stack_clear_empties() {
    let mut s: Stack<u8> = Container::from_full(vec![1, 2, 3]);
    s.clear();
    assert!(s.is_empty());
    assert_eq!(s.capacity(), 3);
    assert_eq!(s.remove(), None);
}

#[test]
fn stack_capacity_never_changes() {
    let mut s: Stack<u8> = Container::from_empty(2);
    for _ in 0..5 {
        s.try_add(1);
        assert!(s.len() <= s.capacity());
        assert_eq!(s.capacity(), 2);
    }
    for _ in 0..5 {
        s.remove();
        assert!(s.len() <= s.capacity());
        assert_eq!(s.capacity(), 2);
    }
}

#[test]
fn queue_fifo_with_wraparound() {
    let mut q: Queue<u64> = Container::from_empty(4);
    q.add_or_panic(1, "");
    q.add_or_panic(2, "");
    q.add_or_panic(3, "");
    q.add_or_panic(4, "");
    assert!(q.is_full());
    assert_eq!(q.remove(), Some(1));
    q.add_or_panic(5, "");
    assert_eq!(*q.get(0), 2);
    assert_eq!(*q.get(1), 3);
    assert_eq!(*q.get(2), 4);
    assert_eq!(*q.get(3), 5);
    assert_eq!(q.remove(), Some(2));
    assert_eq!(q.remove(), Some(3));
    assert_eq!(q.remove(), Some(4));
    assert_eq!(q.remove(), Some(5));
    assert!(q.is_empty());
}

#[test]
fn queue_full_empty_disambiguation() {
    let mut q: Queue<u8> = Container::from_empty(3);
    q.add_or_panic(1, "");
    q.add_or_panic(2, "");
    q.add_or_panic(3, "");
    assert!(q.is_full());
    assert!(!q.is_empty());
    assert_eq!(q.try_add(4), Some(4));
    q.remove();
    q.remove();
    q.remove();
    assert!(q.is_empty());
    assert!(!q.is_full());
    assert_eq!(q.remove(), None);
}

#[test]
fn queue_from_existing_keeps_order() {
    let mut q: Queue<u32> = Container::from_existing(vec![7, 8], 4);
    assert_eq!(q.len(), 2);
    assert_eq!(q.capacity(), 4);
    q.add_or_panic(9, "");
    assert_eq!(q.remove(), Some(7));
    assert_eq!(q.remove(), Some(8));
    assert_eq!(q.remove(), Some(9));
}

#[test]
fn queue_forget_matches_removes() {
    let mut a: Queue<u16> = Container::from_empty(4);
    let mut b: Queue<u16> = Container::from_empty(4);
    for v in [1u16, 2, 3, 4] {
        a.add_or_panic(v, "");
        b.add_or_panic(v, "");
    }
    // push the front past the buffer end so the trim wraps
    a.remove();
    a.add_or_panic(5, "");
    b.remove();
    b.add_or_panic(5, "");
    assert_eq!(a.forget(3), 3);
    b.remove();
    b.remove();
    b.remove();
    assert_eq!(a.len(), b.len());
    assert_eq!(a.remove(), b.remove());
    assert_eq!(a.remove(), None);
}

#[test]
fn queue_forget_more_than_len() {
    let mut q: Queue<u8> = Container::from_full(vec![1, 2, 3]);
    assert_eq!(q.forget(9), 3);
    assert!(q.is_empty());
    assert!(!q.is_full());
}

#[test]
fn queue_extend_space_at_right_end() {
    let mut q: Queue<u8> = Container::from_empty(5);
    q.add_or_panic(1, "");
    let copied = q.extend(&[2, 3]);
    assert_eq!(copied, 2);
    assert_eq!(q.remove(), Some(1));
    assert_eq!(q.remove(), Some(2));
    assert_eq!(q.remove(), Some(3));
}

#[test]
fn queue_extend_space_in_middle() {
    // first two removals leave free space wholly before `first`
    let mut q: Queue<u8> = Container::from_full(vec![1, 2, 3, 4]);
    q.remove();
    q.remove();
    let copied = q.extend(&[5, 6, 7]);
    assert_eq!(copied, 2);
    assert_eq!(q.remove(), Some(3));
    assert_eq!(q.remove(), Some(4));
    assert_eq!(q.remove(), Some(5));
    assert_eq!(q.remove(), Some(6));
    assert_eq!(q.remove(), None);
}

#[test]
fn queue_extend_space_split_across_ends() {
    // one removal plus one wrapped add leaves space at both ends
    let mut q: Queue<u8> = Container::from_empty(5);
    for v in [1, 2, 3] {
        q.add_or_panic(v, "");
    }
    q.remove();
    let copied = q.extend(&[4, 5, 6]);
    assert_eq!(copied, 3);
    assert!(q.is_full());
    for expect in [2, 3, 4, 5, 6] {
        assert_eq!(q.remove(), Some(expect));
    }
}

#[test]
fn queue_move_data_makes_contiguous() {
    let mut q: Queue<u8> = Container::from_full(vec![1, 2, 3, 4]);
    q.remove();
    q.remove();
    q.add_or_panic(5, "");
    q.add_or_panic(6, "");
    q.move_data(8);
    assert_eq!(q.capacity(), 8);
    for expect in [3, 4, 5, 6] {
        assert_eq!(q.remove(), Some(expect));
    }
}

#[test]
fn queue_clear_empties() {
    let mut q: Queue<u8> = Container::from_full(vec![1, 2, 3]);
    q.remove();
    q.add_or_panic(4, "");
    q.clear();
    assert!(q.is_empty());
    assert_eq!(q.capacity(), 3);
}

#[test]
fn queue_zero_capacity_is_both_empty_and_full() {
    let mut q: Queue<u8> = Container::from_empty(0);
    assert!(q.is_empty());
    assert!(q.is_full());
    assert_eq!(q.try_add(1), Some(1));
    assert_eq!(q.remove(), None);
}

#[test]
fn queue_capacity_never_changes() {
    let mut q: Queue<u8> = Container::from_empty(3);
    for v in 0..7u8 {
        q.try_add(v);
        assert!(q.len() <= q.capacity());
        assert_eq!(q.capacity(), 3);
        if v % 2 == 0 {
            q.remove();
        }
    }
}
