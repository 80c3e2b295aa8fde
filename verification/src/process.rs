//! Process stacks and the process control block.
//!
//! Thin composition over the pool allocator, the stack buffers and the
//! register contexts: a process control block owns one pooled stack,
//! whose top holds the initial switch frame (a terminator word, the exit
//! handler's address, and the flattened fresh context).

use vstd::prelude::*;
use vstd::pervasive::VecAdditionalExecFns;
use crate::allocator::Alloc;
use crate::allocator::Allocated;
use crate::allocator::Allocator;
use crate::allocator::Init;
use crate::context::Context64;
use crate::context::default_context64;
use crate::priority::Priority;

verus! {

/// Number of machine words a process stack holds.
pub const STACK_SIZE: usize = 1024;

/// Number of processes the pools are sized for.
pub const MAX_PROCS: usize = 16;

/// 32-bit stack.
pub struct Stack32 {
    pub data: Vec<u32>,
}

/// 64-bit stack.
pub struct Stack64 {
    pub data: Vec<u64>,
}

impl Stack32 {
    /// The stack buffer has its fixed size.
    pub open spec fn wf(&self) -> bool {
        self.data@.len() == STACK_SIZE as int
    }

    /// Builds a zeroed 32-bit stack.
    pub fn new() -> (r: Stack32)
        ensures
            r.wf(),
            r.data@ == Seq::new(STACK_SIZE as nat, |i: int| 0u32),
    {
        let mut data: Vec<u32> = Vec::new();
        let mut i: usize = 0;
        while i < STACK_SIZE
            invariant
                i <= STACK_SIZE,
                data@.len() == i as int,
                forall|j: int| 0 <= j < i as int ==> (#[trigger] data@[j]) == 0u32,
            decreases STACK_SIZE - i,
        {
            data.push(0);
            i = i + 1;
        }
        let r = Stack32 { data };
        proof {
            assert(r.data@ =~= Seq::new(STACK_SIZE as nat, |j: int| 0u32));
        }
        r
    }
}

impl Stack64 {
    /// The stack buffer has its fixed size.
    pub open spec fn wf(&self) -> bool {
        self.data@.len() == STACK_SIZE as int
    }

    /// Builds a zeroed 64-bit stack.
    pub fn new() -> (r: Stack64)
        ensures
            r.wf(),
            r.data@ == Seq::new(STACK_SIZE as nat, |i: int| 0u64),
    {
        let mut data: Vec<u64> = Vec::new();
        let mut i: usize = 0;
        while i < STACK_SIZE
            invariant
                i <= STACK_SIZE,
                data@.len() == i as int,
                forall|j: int| 0 <= j < i as int ==> (#[trigger] data@[j]) == 0u64,
            decreases STACK_SIZE - i,
        {
            data.push(0);
            i = i + 1;
        }
        let r = Stack64 { data };
        proof {
            assert(r.data@ =~= Seq::new(STACK_SIZE as nat, |j: int| 0u64));
        }
        r
    }

    /// Lays the initial switch frame into the top of the stack, in push
    /// order: a zero terminator word, the exit handler's address, then
    /// the flattened context, each later word at a lower slot.
    pub fn write_frame(&mut self, ctx: Context64, exit_handler: u64)
        requires
            old(self).wf(),
        ensures
            final(self).wf(),
            final(self).data@[STACK_SIZE - 1] == 0u64,
            final(self).data@[STACK_SIZE - 2] == exit_handler,
            forall|k: int|
                0 <= k < 26 ==> (#[trigger] final(self).data@[STACK_SIZE - 28 + k])
                    == ctx.words_spec()[25 - k],
            forall|k: int|
                0 <= k < STACK_SIZE - 28 ==> (#[trigger] final(self).data@[k]) == old(
                    self,
                ).data@[k],
    {
        let ghost pre = self.data@;
        self.data.set(STACK_SIZE - 1, 0);
        self.data.set(STACK_SIZE - 2, exit_handler);
        let words = ctx.to_words();
        let mut k: usize = 0;
        while k < 26
            invariant
                k <= 26,
                self.data@.len() == STACK_SIZE as int,
                words@ == ctx.words_spec(),
                self.data@[STACK_SIZE - 1] == 0u64,
                self.data@[STACK_SIZE - 2] == exit_handler,
                forall|j: int|
                    0 <= j < k as int ==> (#[trigger] self.data@[STACK_SIZE - 3 - j])
                        == ctx.words_spec()[j],
                forall|j: int|
                    0 <= j < STACK_SIZE - 28 ==> (#[trigger] self.data@[j]) == pre[j],
            decreases 26 - k,
        {
            self.data.set(STACK_SIZE - 3 - k, words[k]);
            k = k + 1;
        }
        proof {
            assert forall|k2: int| 0 <= k2 < 26 implies (#[trigger] self.data@[STACK_SIZE - 28
                + k2]) == ctx.words_spec()[25 - k2] by {
                assert(self.data@[STACK_SIZE - 3 - (25 - k2)] == ctx.words_spec()[25 - k2]);
            }
        }
    }
}

impl Init for Stack32 {
    /// Zeroes the stack and restores its fixed size.
    fn init(&mut self)
        ensures
            final(self).wf(),
            final(self).data@ == Seq::new(STACK_SIZE as nat, |i: int| 0u32),
    {
        let fresh = Stack32::new();
        self.data = fresh.data;
    }
}

impl Init for Stack64 {
    /// Zeroes the stack and restores its fixed size.
    fn init(&mut self)
        ensures
            final(self).wf(),
            final(self).data@ == Seq::new(STACK_SIZE as nat, |i: int| 0u64),
    {
        let fresh = Stack64::new();
        self.data = fresh.data;
    }
}

impl Alloc for Stack32 {
    fn backing() -> (r: Vec<Stack32>)
        ensures
            r@.len() == MAX_PROCS as int,
    {
        let mut pool: Vec<Stack32> = Vec::new();
        let mut i: usize = 0;
        while i < MAX_PROCS
            invariant
                i <= MAX_PROCS,
                pool@.len() == i as int,
            decreases MAX_PROCS - i,
        {
            pool.push(Stack32::new());
            i = i + 1;
        }
        pool
    }

    fn alloc_err() -> &'static str {
        "unable to allocate 32-bit stack"
    }

    fn dealloc_err() -> &'static str {
        "unable to deallocate 32-bit stack"
    }
}

impl Alloc for Stack64 {
    fn backing() -> (r: Vec<Stack64>)
        ensures
            r@.len() == MAX_PROCS as int,
    {
        let mut pool: Vec<Stack64> = Vec::new();
        let mut i: usize = 0;
        while i < MAX_PROCS
            invariant
                i <= MAX_PROCS,
                pool@.len() == i as int,
            decreases MAX_PROCS - i,
        {
            pool.push(Stack64::new());
            i = i + 1;
        }
        pool
    }

    fn alloc_err() -> &'static str {
        "unable to allocate 64-bit stack"
    }

    fn dealloc_err() -> &'static str {
        "unable to deallocate 64-bit stack"
    }
}

/// 64-bit process control block: scheduling bookkeeping plus an owned
/// pooled stack holding the initial switch frame.
pub struct Process64 {
    stack: Allocated<Stack64>,
    context_at: usize,
    wakeup: u64,
    pid: i16,
    ppid: i16,
    prio: u8,
    state: u8,
    quantum: u8,
    default_quantum: u8,
}

impl Process64 {
    /// The block owns a live stack of the fixed size, with the context
    /// words sitting right below the frame's two topmost words.
    pub open spec fn wf(&self) -> bool {
        &&& self.stack_guard().is_holding()
        &&& self.stack_guard().value_spec().wf()
        &&& self.context_at_spec() == STACK_SIZE - 28
    }

    /// The guard over the pooled stack.
    pub closed spec fn stack_guard(&self) -> Allocated<Stack64> {
        self.stack
    }

    /// Where the flattened context begins in the stack buffer.
    pub closed spec fn context_at_spec(&self) -> int {
        self.context_at as int
    }

    /// The process identifier.
    pub closed spec fn pid_spec(&self) -> i16 {
        self.pid
    }

    /// The parent's process identifier.
    pub closed spec fn ppid_spec(&self) -> i16 {
        self.ppid
    }

    /// The raw scheduling priority (smaller is more urgent).
    pub closed spec fn prio_raw(&self) -> u8 {
        self.prio
    }

    /// The configured quantum.
    pub closed spec fn quantum_spec(&self) -> u8 {
        self.quantum
    }

    /// Builds a process control block over a freshly allocated stack,
    /// laying the initial switch frame (terminator, exit handler, fresh
    /// context) into its top.
    pub fn init_with(
        stack: Allocated<Stack64>,
        exit_handler: u64,
        pid: i16,
        ppid: i16,
        prio: u8,
        quantum: u8,
    ) -> (p: Process64)
        requires
            stack.is_holding(),
            stack.value_spec().wf(),
        ensures
            p.wf(),
            p.stack_guard().slot_spec() == stack.slot_spec(),
            p.pid_spec() == pid,
            p.ppid_spec() == ppid,
            p.prio_raw() == prio,
            p.quantum_spec() == quantum,
            p.stack_guard().value_spec().data@[STACK_SIZE - 1] == 0u64,
            p.stack_guard().value_spec().data@[STACK_SIZE - 2] == exit_handler,
            forall|k: int|
                0 <= k < 26 ==> (#[trigger] p.stack_guard().value_spec().data@[STACK_SIZE - 28
                    + k]) == default_context64().words_spec()[25 - k],
    {
        let mut stack = stack;
        let ctx = Context64::new();
        stack.value_mut().write_frame(ctx, exit_handler);
        Process64 {
            stack,
            context_at: STACK_SIZE - 28,
            wakeup: 0,
            pid,
            ppid,
            prio,
            state: 0,
            quantum,
            default_quantum: quantum,
        }
    }

    /// Returns the process identifier.
    pub fn pid(&self) -> (r: i16)
        ensures
            r == self.pid_spec(),
    {
        self.pid
    }

    /// Returns the parent's process identifier.
    pub fn ppid(&self) -> (r: i16)
        ensures
            r == self.ppid_spec(),
    {
        self.ppid
    }

    /// Returns the raw scheduling priority (smaller is more urgent).
    pub fn prio(&self) -> (r: u8)
        ensures
            r == self.prio_raw(),
    {
        self.prio
    }

    /// Returns the configured quantum.
    pub fn quantum(&self) -> (r: u8)
        ensures
            r == self.quantum_spec(),
    {
        self.quantum
    }

    /// Returns a read-only view of the owned stack.
    pub fn stack(&self) -> (r: &Stack64)
        requires
            self.wf(),
        ensures
            *r == self.stack_guard().value_spec(),
    {
        self.stack.value()
    }

    /// Hands the pooled stack back to the caller, consuming the block;
    /// the guard can then be released to its allocator.
    pub fn into_stack(self) -> (r: Allocated<Stack64>)
        ensures
            r == self.stack_guard(),
    {
        self.stack
    }

    /// Allocates a stack from the pool, zeroes it, and builds a process
    /// control block whose frame is ready for a first context switch;
    /// `None` exactly when the stack pool is exhausted.
    pub fn spawn(
        stack_alloc: &mut Allocator<Stack64>,
        exit_handler: u64,
        pid: i16,
        ppid: i16,
        prio: u8,
        quantum: u8,
    ) -> (r: Option<Process64>)
        requires
            old(stack_alloc).wf(),
        ensures
            final(stack_alloc).wf(),
            final(stack_alloc).capacity_spec() == old(stack_alloc).capacity_spec(),
            match r {
                Option::None => {
                    &&& old(stack_alloc).available_spec() == 0
                    &&& *final(stack_alloc) == *old(stack_alloc)
                },
                Option::Some(p) => {
                    &&& old(stack_alloc).available_spec() > 0
                    &&& final(stack_alloc).available_spec() == old(stack_alloc).available_spec()
                        - 1
                    &&& p.wf()
                    &&& final(stack_alloc).owns(p.stack_guard())
                    &&& p.pid_spec() == pid
                    &&& p.ppid_spec() == ppid
                    &&& p.prio_raw() == prio
                    &&& p.quantum_spec() == quantum
                    &&& p.stack_guard().value_spec().data@[STACK_SIZE - 1] == 0u64
                    &&& p.stack_guard().value_spec().data@[STACK_SIZE - 2] == exit_handler
                    &&& forall|k: int|
                        0 <= k < 26 ==> (#[trigger] p.stack_guard().value_spec().data@[STACK_SIZE
                            - 28 + k]) == default_context64().words_spec()[25 - k]
                },
            },
    {
        let got = stack_alloc.alloc_unitialized_option();
        match got {
            Option::None => Option::None,
            Option::Some(g) => {
                let mut g = g;
                g.value_mut().init();
                Option::Some(Process64::init_with(g, exit_handler, pid, ppid, prio, quantum))
            },
        }
    }
}

impl Priority for Process64 {
    /// Smaller raw priorities are more urgent, so the key inverts them:
    /// the most urgent process carries the greatest key.
    open spec fn prio_spec(&self) -> u64 {
        (255 - self.prio_raw()) as u64
    }

    fn priority(&self) -> (p: u64) {
        (255 - self.prio) as u64
    }
}

} // verus!
