//! Bookkeeping of the cooperative round-robin thread scheduler.
use vstd::prelude::*;

verus! {

/// Most threads the scheduler runs.
pub const MAX_THREADS: usize = 4;

/// Stack size of a spawned thread, in bytes.
pub const STACK_SIZE: usize = 8 * 1024;

/// Life-cycle of a thread.
#[derive(Debug, Clone, Copy, PartialEq, Eq, Structural)]
pub enum ThreadStatus {
    /// Waiting to be scheduled.
    Ready,
    /// On the CPU.
    Running,
}

/// A thread control block.
pub struct Thread {
    /// Thread identifier.
    pub id: usize,
    /// Current status.
    pub status: ThreadStatus,
    /// The thread's own stack (empty for the boot thread).
    pub stack: Vec<u8>,
    /// Saved stack pointer.
    pub rsp: u64,
}

/// The threads and the one running.
pub struct Scheduler {
    /// Registered threads.
    pub threads: Vec<Thread>,
    /// Index of the running thread.
    pub current_thread_idx: usize,
}

impl Scheduler {
    /// A scheduler with no thread.
    pub fn new() -> (s: Self)
        ensures
            s.threads@.len() == 0,
            s.current_thread_idx == 0,
    {
        Scheduler { threads: Vec::new(), current_thread_idx: 0 }
    }

    /// Registers the boot context as thread 0, running, with no stack of its
    /// own and its stack pointer still to be saved.
    pub fn register_main_thread(&mut self)
        ensures
            final(self).threads@.len() == old(self).threads@.len() + 1,
            forall|i: int|
                0 <= i < old(self).threads@.len() ==> #[trigger] final(self).threads@[i] == old(
                    self,
                ).threads@[i],
            final(self).threads@.last().id == 0,
            final(self).threads@.last().status == ThreadStatus::Running,
            final(self).threads@.last().stack@.len() == 0,
            final(self).threads@.last().rsp == 0,
            final(self).current_thread_idx == old(self).current_thread_idx,
    {
        let t = Thread { id: 0, status: ThreadStatus::Running, stack: Vec::new(), rsp: 0 };
        self.threads.push(t);
    }

    /// The scheduling decision of a yield: with fewer than two threads
    /// nothing happens; otherwise the next thread in round-robin order
    /// becomes current and running, the previous one ready. Returns the
    /// indices to switch from and to.
    pub fn thread_yield(&mut self) -> (r: Option<(usize, usize)>)
        requires
            old(self).current_thread_idx < old(self).threads@.len() || old(self).threads@.len() <= 1,
        ensures
            old(self).threads@.len() <= 1 ==> r is None && *final(self) == *old(self),
            old(self).threads@.len() > 1 ==> {
                let n = old(self).threads@.len();
                let from = old(self).current_thread_idx;
                let to = ((from + 1) % (n as int)) as usize;
                &&& r == Some((from, to))
                &&& final(self).current_thread_idx == to
                &&& final(self).threads@.len() == n
                &&& forall|i: int|
                    0 <= i < n && i != from && i != to ==> #[trigger] final(self).threads@[i] == old(
                        self,
                    ).threads@[i]
                &&& final(self).threads@[to as int].status == ThreadStatus::Running
                &&& final(self).threads@[to as int].id == old(self).threads@[to as int].id
                &&& final(self).threads@[to as int].rsp == old(self).threads@[to as int].rsp
                &&& final(self).threads@[to as int].stack == old(self).threads@[to as int].stack
                &&& from != to ==> final(self).threads@[from as int].status == ThreadStatus::Ready
                    && final(self).threads@[from as int].id == old(self).threads@[from as int].id
                    && final(self).threads@[from as int].rsp == old(self).threads@[from as int].rsp
                    && final(self).threads@[from as int].stack == old(self).threads@[from as int].stack
            },
    {
        if self.threads.len() <= 1 {
            return None;
        }
        let next_idx = (self.current_thread_idx + 1) % self.threads.len();
        let old_idx = self.current_thread_idx;
        self.current_thread_idx = next_idx;
        self.threads[old_idx].status = ThreadStatus::Ready;
        self.threads[next_idx].status = ThreadStatus::Running;
        Some((old_idx, next_idx))
    }
}

/// Bytes of the register frame a new thread starts from: seven saved
/// 64-bit registers.
pub const TASK_CONTEXT_SIZE: usize = 56;

/// The saved stack pointer of a new thread whose stack starts at address
/// `base`: the stack's top rounded down to 16 bytes, less 8, less the
/// register frame placed there.
pub open spec fn initial_rsp(base: usize) -> int {
    ((((base + STACK_SIZE) as usize) & !15usize) - 8 - TASK_CONTEXT_SIZE) as int
}

impl Scheduler {
    /// Adds a ready thread with the given stack of `STACK_SIZE` bytes,
    /// found at address `stack_base`, its stack pointer at the register
    /// frame it starts from (see `initial_rsp`); refused once `MAX_THREADS`
    /// are registered. Returns the new thread's identifier, its index.
    pub fn spawn(&mut self, stack: Vec<u8>, stack_base: usize) -> (r: Result<usize, &'static str>)
        requires
            stack@.len() == STACK_SIZE,
            64 <= stack_base,
            stack_base + STACK_SIZE <= usize::MAX,
        ensures
            old(self).threads@.len() >= MAX_THREADS ==> r == Err::<usize, &'static str>(
                "Maximum thread capacity reached!",
            ) && *final(self) == *old(self),
            old(self).threads@.len() < MAX_THREADS ==> {
                let n = old(self).threads@.len();
                &&& r == Ok::<usize, &'static str>(n as usize)
                &&& final(self).threads@ == old(self).threads@.push(final(self).threads@.last())
                &&& final(self).threads@.last().id == n
                &&& final(self).threads@.last().status == ThreadStatus::Ready
                &&& final(self).threads@.last().stack@ == stack@
                &&& final(self).threads@.last().rsp == initial_rsp(stack_base)
                &&& final(self).current_thread_idx == old(self).current_thread_idx
            },
    {
        if self.threads.len() >= MAX_THREADS {
            return Err("Maximum thread capacity reached!");
        }
        let stack_top = stack_base + STACK_SIZE;
        let aligned = stack_top & !15usize;
        assert(stack_top - 15 <= aligned <= stack_top) by (bit_vector)
            requires
                aligned == stack_top & !15usize,
                stack_top >= 15,
        ;
        let aligned_stack_top = aligned - 8;
        let thread_id = self.threads.len();
        let rsp = aligned_stack_top - TASK_CONTEXT_SIZE;
        let t = Thread { id: thread_id, status: ThreadStatus::Ready, stack, rsp: rsp as u64 };
        self.threads.push(t);
        assert(self.threads@ =~= old(self).threads@.push(self.threads@.last()));
        Ok(thread_id)
    }
}

} // verus!
