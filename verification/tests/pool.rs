use fixedcap::allocator::Alloc;
use fixedcap::allocator::Allocated;
use fixedcap::allocator::Allocator;
use fixedcap::allocator::Init;
use fixedcap::flags;
use fixedcap::process::MAX_PROCS;
use fixedcap::process::Process64;
use fixedcap::process::STACK_SIZE;
use fixedcap::process::Stack32;
use fixedcap::process::Stack64;
use fixedcap::priority::Priority;

struct Counter {
    ticks: u32,
}

impl Init for Counter {
    fn init(&mut self) {
        self.ticks = 1;
    }
}

fn counter_pool(n: usize) -> Allocator<Counter> {
    let mut pool = Vec::new();
    for _ in 0..n {
        pool.push(Counter { ticks: 0 });
    }
    Allocator::new(pool, "counter pool exhausted", "counter pool corrupted")
}

#[test]
fn allocator_counts_available() {
    let mut a = counter_pool(3);
    assert_eq!(a.available(), 3);
    assert!(a.has_available());
    let g = a.alloc_uninitialized();
    assert_eq!(a.available(), 2);
    let mut g = g;
    g.release(&mut a);
    assert_eq!(a.available(), 3);
}

#[test]
fn allocator_exhaustion_then_one_release() {
    let mut a = counter_pool(3);
    let mut held: Vec<Allocated<Counter>> = Vec::new();
    for _ in 0..3 {
        let g = a.alloc_unitialized_option();
        assert!(g.is_some());
        held.push(g.unwrap());
    }
    // the pool of size 3 refuses the fourth allocation
    assert!(a.alloc_unitialized_option().is_none());
    assert!(!a.has_available());
    // after releasing one guard, exactly one more allocation succeeds
    let mut g = held.pop().unwrap();
    g.release(&mut a);
    assert_eq!(a.available(), 1);
    let again = a.alloc_unitialized_option();
    assert!(again.is_some());
    assert!(a.alloc_unitialized_option().is_none());
}

#[test]
fn guard_release_is_idempotent() {
    let mut a = counter_pool(2);
    let mut g = a.alloc_uninitialized();
    assert_eq!(a.available(), 1);
    g.release(&mut a);
    assert_eq!(a.available(), 2);
    // the second release finds nothing to hand back
    g.release(&mut a);
    assert_eq!(a.available(), 2);
}

#[test]
fn allocate_runs_the_init_hook() {
    let mut a = counter_pool(1);
    let g = a.allocate();
    assert_eq!(g.value().ticks, 1);
    let mut g = g;
    g.release(&mut a);
    // an uninitialized allocation skips the hook and hands the parked
    // object back as it was left
    let g2 = a.alloc_uninitialized();
    assert_eq!(g2.value().ticks, 1);
}

#[test]
fn allocate_option_matches_availability() {
    let mut a = counter_pool(1);
    let g = a.allocate_option();
    assert!(g.is_some());
    assert!(a.allocate_option().is_none());
}

#[test]
fn guard_value_mut_edits_in_place() {
    let mut a = counter_pool(1);
    let mut g = a.allocate();
    g.value_mut().ticks = 42;
    assert_eq!(g.value().ticks, 42);
    g.release(&mut a);
    let g2 = a.alloc_uninitialized();
    assert_eq!(g2.value().ticks, 42);
}

#[test]
fn stack_pools_are_sized_for_max_procs() {
    let mut a64 = Stack64::allocator();
    assert_eq!(a64.available(), MAX_PROCS);
    let g = a64.alloc_uninitialized();
    assert_eq!(g.value().data.len(), STACK_SIZE);
    assert_eq!(a64.available(), MAX_PROCS - 1);
    let a32 = Stack32::allocator();
    assert_eq!(a32.available(), MAX_PROCS);
}

#[test]
fn stack64_init_zeroes() {
    let mut s = Stack64::new();
    s.data[0] = 77;
    s.init();
    assert_eq!(s.data.len(), STACK_SIZE);
    assert!(s.data.iter().all(|w| *w == 0));
    let mut s32 = Stack32::new();
    s32.data[3] = 5;
    s32.init();
    assert!(s32.data.iter().all(|w| *w == 0));
}

#[test]
fn spawn_builds_the_switch_frame() {
    let mut stacks = Stack64::allocator();
    let p = Process64::spawn(&mut stacks, 0xdead_beef, 7, 1, 3, 10).unwrap();
    assert_eq!(p.pid(), 7);
    assert_eq!(p.ppid(), 1);
    assert_eq!(p.prio(), 3);
    assert_eq!(p.quantum(), 10);
    // the scheduler key inverts the raw priority: small raw value, big key
    assert_eq!(p.priority(), 252);
    let data = &p.stack().data;
    assert_eq!(data[STACK_SIZE - 1], 0);
    assert_eq!(data[STACK_SIZE - 2], 0xdead_beef);
    // the flattened fresh context sits below, rflags pushed first
    assert_eq!(data[STACK_SIZE - 3], flags::DEFAULT);
    assert_eq!(data[STACK_SIZE - 4], 0x0010); // cs
    assert_eq!(data[STACK_SIZE - 28], 0x0020); // ss, pushed last
    assert_eq!(stacks.available(), MAX_PROCS - 1);
    // the stack flows back into the pool when the block retires
    let mut g = p.into_stack();
    g.release(&mut stacks);
    assert_eq!(stacks.available(), MAX_PROCS);
}

#[test]
fn spawn_fails_only_when_pool_is_dry() {
    let mut stacks = Stack64::allocator();
    let mut procs = Vec::new();
    for i in 0..MAX_PROCS {
        let p = Process64::spawn(&mut stacks, 0, i as i16, 0, 1, 1);
        assert!(p.is_some());
        procs.push(p.unwrap());
    }
    assert!(Process64::spawn(&mut stacks, 0, 99, 0, 1, 1).is_none());
    let mut g = procs.pop().unwrap().into_stack();
    g.release(&mut stacks);
    assert!(Process64::spawn(&mut stacks, 0, 99, 0, 1, 1).is_some());
}
