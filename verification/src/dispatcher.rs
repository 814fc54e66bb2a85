//! Process table and dispatcher: spawns processes on page frames, runs
//! their write/read steps and hot-swaps a process onto a fresh frame when
//! its page suffers an uncorrectable fault.
use vstd::prelude::*;
use vstd::string::*;
use crate::allocator::{
    MemoryAllocator, PageStatus, CorrectionEvent, PAGE_SIZE, TOTAL_PAGES, frame_clean,
    ERR_RELOCATE_UNALLOCATED, ERR_RELOCATE_OOM, PhysicalFrame, status_after_correction, same_identity,
    same_contents, ERR_WRITE_QUARANTINED,
};
use crate::ecc::{DecodeResult, decode_spec, encode_spec, recovered_byte};
use crate::text::{dec, hex_byte, fmt_dec, fmt_hex_byte};
use crate::tmr::{TmrVoter, TmrResult, TmrStatus, vote_outcome};

verus! {

/// Number of log lines the dispatcher keeps.
pub const LOG_CAPACITY: usize = 100;

pub const ERR_OUT_OF_FRAMES: &'static str = "Out of physical memory frames.";
pub const ERR_NOT_FOUND: &'static str = "Process not found.";
pub const ERR_NO_MEMORY: &'static str = "Process has no memory allocated.";
pub const ERR_RETRY_READ: &'static str = "Retry read failed.";

/// A process of the simulated kernel.
#[derive(Debug, Clone)]
pub struct KernelProcess {
    /// Process identifier.
    pub pid: u32,
    /// Human-readable name.
    pub name: String,
    /// Page frames held by the process; the first one is its working page.
    pub allocated_pages: Vec<usize>,
    /// Whether the process runs its arithmetic under redundancy.
    pub is_critical: bool,
    /// Number of completed steps.
    pub instruction_step: usize,
}

impl KernelProcess {
    /// A process with no pages and no completed step.
    pub fn new(pid: u32, name: &str, is_critical: bool) -> (p: Self)
        ensures
            p.pid == pid,
            p.name@ == name@,
            p.allocated_pages@.len() == 0,
            p.is_critical == is_critical,
            p.instruction_step == 0,
    {
        KernelProcess {
            pid,
            name: String::from_str(name),
            allocated_pages: Vec::new(),
            is_critical,
            instruction_step: 0,
        }
    }
}

/// The process table and its rolling event log.
pub struct TaskDispatcher {
    /// Registered processes.
    pub processes: Vec<KernelProcess>,
    /// Most recent events, oldest first.
    pub event_logs: Vec<String>,
}

/// The log after recording `e`: the oldest line is dropped once the log
/// holds `LOG_CAPACITY` lines.
pub open spec fn log_after(logs: Seq<Seq<char>>, e: Seq<char>) -> Seq<Seq<char>> {
    (if logs.len() >= LOG_CAPACITY {
        logs.drop_first()
    } else {
        logs
    }).push(e)
}

/// Log line of a successful spawn.
pub open spec fn spawn_msg(name: Seq<char>, pid: u32, frame: usize) -> Seq<char> {
    "SPAWN: Process '"@ + name + "' (PID: "@ + dec(pid as nat)
        + ") spawned on physical page frame "@ + dec(frame as nat)
}

/// Log line of a spawn that found no free frame.
pub open spec fn spawn_fail_msg(name: Seq<char>) -> Seq<char> {
    "SPAWN FAIL: Out of memory spawning process '"@ + name + "'"@
}

/// Log line opening a redundant execution.
pub open spec fn tmr_active_msg(name: Seq<char>) -> Seq<char> {
    "TMR ACTIVE: Initiating redundant execution for '"@ + name + "'"@
}

/// Log line of a unanimous redundant execution.
pub open spec fn tmr_success_msg(name: Seq<char>) -> Seq<char> {
    "TMR SUCCESS: Perfect match across all 3 runners for '"@ + name + "'"@
}

/// Log line of a redundant execution in which runner `runner`, producing
/// `faulty`, was outvoted by the majority value `majority`.
pub open spec fn tmr_warning_msg(runner: usize, faulty: Seq<char>, majority: Seq<char>) -> Seq<char> {
    "TMR WARNING: Divergence detected in runner "@ + dec(runner as nat) + " (produced '"@ + faulty
        + "'). Corrected by voter to majority '"@ + majority + "'!"@
}

/// Log line of a redundant execution with no majority.
pub open spec fn tmr_failure_msg(name: Seq<char>) -> Seq<char> {
    "TMR CRITICAL FAILURE: Complete divergence for '"@ + name + "'!"@
}

/// Index of the first process with `pid`, if any.
pub open spec fn has_pid_at(ps: Seq<KernelProcess>, pid: u32, i: int) -> bool {
    0 <= i < ps.len() && ps[i].pid == pid && forall|j: int| 0 <= j < i ==> ps[j].pid != pid
}

/// A process with `pid` at index `j` means some first process has it.
pub proof fn lemma_first_pid(ps: Seq<KernelProcess>, pid: u32, j: int)
    requires
        0 <= j < ps.len(),
        ps[j].pid == pid,
    ensures
        exists|i: int| has_pid_at(ps, pid, i),
    decreases j,
{
    if exists|j1: int| 0 <= j1 < j && ps[j1].pid == pid {
        let j1 = choose|j1: int| 0 <= j1 < j && ps[j1].pid == pid;
        lemma_first_pid(ps, pid, j1);
    } else {
        assert(has_pid_at(ps, pid, j));
    }
}

/// The step counter of the first process with `pid` can advance by one and
/// the step's arithmetic stays in range.
pub open spec fn step_fits(ps: Seq<KernelProcess>, pid: u32) -> bool {
    forall|i: int| has_pid_at(ps, pid, i) ==> (ps[i].instruction_step + 1) * 17 <= usize::MAX
}

impl TaskDispatcher {
    /// The event log as character sequences.
    pub open spec fn logs(&self) -> Seq<Seq<char>> {
        self.event_logs.deep_view()
    }

    /// Every page of every process names an existing frame.
    pub open spec fn pages_in_range(&self) -> bool {
        forall|i: int, k: int|
            0 <= i < self.processes@.len() && 0 <= k < self.processes@[i].allocated_pages@.len()
                ==> #[trigger] self.processes@[i].allocated_pages@[k] < TOTAL_PAGES
    }

    /// A dispatcher with no process and one start-up log line.
    pub fn new() -> (d: Self)
        ensures
            d.processes@.len() == 0,
            d.logs() == seq!["Dispatcher initialized."@],
    {
        let line = String::from_str("Dispatcher initialized.");
        let mut event_logs: Vec<String> = Vec::new();
        event_logs.push(line);
        proof {
            assert(event_logs.deep_view() =~= seq!["Dispatcher initialized."@]);
        }
        TaskDispatcher { processes: Vec::new(), event_logs }
    }

    /// Records an event, dropping the oldest line when the log is full.
    pub fn log_event(&mut self, event: &str)
        ensures
            final(self).logs() == log_after(old(self).logs(), event@),
            final(self).processes == old(self).processes,
    {
        let ghost before = self.logs();
        if self.event_logs.len() >= LOG_CAPACITY {
            self.event_logs.remove(0);
        }
        self.event_logs.push(String::from_str(event));
        proof {
            assert(self.logs() =~= log_after(before, event@));
        }
    }

    /// Spawns a process holding the lowest free frame; fails when no frame
    /// is free. The outcome is logged either way.
    pub fn spawn_process(
        &mut self,
        pid: u32,
        name: &str,
        is_critical: bool,
        allocator: &mut MemoryAllocator,
    ) -> (r: Result<u32, &'static str>)
        requires
            old(allocator).wf(),
        ensures
            final(allocator).wf(),
            final(allocator).frames@ == old(allocator).frames@,
            match r {
                Ok(p) => p == pid && final(self).processes@.len() == old(self).processes@.len() + 1
                    && final(self).processes@.last().allocated_pages@.len() == 1 && {
                    let f = final(self).processes@.last().allocated_pages@[0];
                    &&& f < TOTAL_PAGES && old(allocator).is_free(f as int)
                    &&& forall|j: int| 0 <= j < f ==> !old(allocator).is_free(j)
                    &&& final(allocator).allocation_map@ == old(allocator).allocation_map@.update(
                        f as int,
                        Some(pid),
                    )
                    &&& forall|i: int|
                        0 <= i < old(self).processes@.len() ==> #[trigger] final(self).processes@[i]
                            == old(self).processes@[i]
                    &&& final(self).processes@.last().pid == pid
                    &&& final(self).processes@.last().name@ == name@
                    &&& final(self).processes@.last().is_critical == is_critical
                    &&& final(self).processes@.last().instruction_step == 0
                    &&& final(self).logs() == log_after(old(self).logs(), spawn_msg(name@, pid, f))
                },
                Err(e) => {
                    &&& e == ERR_OUT_OF_FRAMES
                    &&& forall|j: int| 0 <= j < TOTAL_PAGES ==> !old(allocator).is_free(j)
                    &&& final(allocator).allocation_map@ == old(allocator).allocation_map@
                    &&& final(self).processes == old(self).processes
                    &&& final(self).logs() == log_after(old(self).logs(), spawn_fail_msg(name@))
                },
            },
    {
        let mut process = KernelProcess::new(pid, name, is_critical);
        match allocator.allocate_page(pid) {
            Some(frame_idx) => {
                process.allocated_pages.push(frame_idx);
                self.processes.push(process);
                let msg = String::from_str("SPAWN: Process '").concat(name).concat(
                    "' (PID: ",
                ).concat(fmt_dec(pid as usize).as_str()).concat(
                    ") spawned on physical page frame ",
                ).concat(fmt_dec(frame_idx).as_str());
                proof {
                    assert(msg@ =~= spawn_msg(name@, pid, frame_idx));
                }
                self.log_event(msg.as_str());
                Ok(pid)
            },
            None => {
                let msg = String::from_str("SPAWN FAIL: Out of memory spawning process '").concat(
                    name,
                ).concat("'");
                proof {
                    assert(msg@ =~= spawn_fail_msg(name@));
                }
                self.log_event(msg.as_str());
                Err(ERR_OUT_OF_FRAMES)
            },
        }
    }

    /// Runs `task` redundantly and returns the majority value, logging how
    /// the vote went.
    pub fn execute_critical_tmr<T, F>(&mut self, name: &str, task: F) -> (r: Option<T>) where
        T: Clone + PartialEq + core::fmt::Debug,
        F: Fn(usize) -> T,

        requires
            task.requires((0usize,)),
            task.requires((1usize,)),
            task.requires((2usize,)),
        ensures
            final(self).processes == old(self).processes,
            exists|r0: T, r1: T, r2: T, res: TmrResult<T>|
                {
                    &&& task.ensures((0usize,), r0)
                    &&& task.ensures((1usize,), r1)
                    &&& task.ensures((2usize,), r2)
                    &&& vote_outcome(res, r0, r1, r2)
                    &&& r == res.value
                    &&& res.status is Perfect ==> final(self).logs() == log_after(
                        log_after(old(self).logs(), tmr_active_msg(name@)),
                        tmr_success_msg(name@),
                    )
                    &&& res.status is Failed ==> final(self).logs() == log_after(
                        log_after(old(self).logs(), tmr_active_msg(name@)),
                        tmr_failure_msg(name@),
                    )
                    &&& res.status matches TmrStatus::Corrected {
                        faulty_runner,
                        faulty_value,
                        majority_value,
                    } ==> final(self).logs() == log_after(
                        log_after(old(self).logs(), tmr_active_msg(name@)),
                        tmr_warning_msg(faulty_runner, faulty_value@, majority_value@),
                    )
                },
    {
        let active = String::from_str("TMR ACTIVE: Initiating redundant execution for '").concat(
            name,
        ).concat("'");
        proof {
            assert(active@ =~= tmr_active_msg(name@));
        }
        self.log_event(active.as_str());
        let res: TmrResult<T> = TmrVoter::execute_redundant(task);
        match &res.status {
            TmrStatus::Perfect => {
                let msg = String::from_str(
                    "TMR SUCCESS: Perfect match across all 3 runners for '",
                ).concat(name).concat("'");
                proof {
                    assert(msg@ =~= tmr_success_msg(name@));
                }
                self.log_event(msg.as_str());
            },
            TmrStatus::Corrected { faulty_runner, faulty_value, majority_value } => {
                let msg = String::from_str("TMR WARNING: Divergence detected in runner ").concat(
                    fmt_dec(*faulty_runner).as_str(),
                ).concat(" (produced '").concat(faulty_value.as_str()).concat(
                    "'). Corrected by voter to majority '",
                ).concat(majority_value.as_str()).concat("'!");
                proof {
                    assert(msg@ =~= tmr_warning_msg(*faulty_runner, faulty_value@, majority_value@));
                }
                self.log_event(msg.as_str());
            },
            TmrStatus::Failed => {
                let msg = String::from_str("TMR CRITICAL FAILURE: Complete divergence for '").concat(
                    name,
                ).concat("'!");
                proof {
                    assert(msg@ =~= tmr_failure_msg(name@));
                }
                self.log_event(msg.as_str());
            },
        }
        res.value
    }
    /// Index of the first process with `pid`.
    fn find_process(&self, pid: u32) -> (r: Option<usize>)
        ensures
            match r {
                Some(i) => has_pid_at(self.processes@, pid, i as int),
                None => forall|j: int| 0 <= j < self.processes@.len() ==> self.processes@[j].pid != pid,
            },
    {
        let mut i: usize = 0;
        while i < self.processes.len()
            invariant
                i <= self.processes@.len(),
                forall|j: int| 0 <= j < i ==> self.processes@[j].pid != pid,
            decreases self.processes@.len() - i,
        {
            if self.processes[i].pid == pid {
                return Some(i);
            }
            i = i + 1;
        }
        None
    }

    /// Quarantines the process's damaged working page, moves its contents to
    /// a fresh frame and points the process at it.
    fn handle_fault(&mut self, process_idx: usize, damaged: usize, allocator: &mut MemoryAllocator) -> (r: Result<usize, &'static str>)
        requires
            old(allocator).wf(),
            old(self).pages_in_range(),
            process_idx < old(self).processes@.len(),
            old(self).processes@[process_idx as int].allocated_pages@.len() > 0,
            old(self).processes@[process_idx as int].allocated_pages@[0] == damaged,
        ensures
            final(allocator).wf(),
            final(self).pages_in_range(),
            final(self).processes@.len() == old(self).processes@.len(),
            forall|j: int|
                0 <= j < old(self).processes@.len() && j != process_idx ==> #[trigger] final(
                    self).processes@[j] == old(self).processes@[j],
            r is Err ==> final(self).processes == old(self).processes && final(self).logs()
                == old(self).logs(),
            relocation_outcome(*old(allocator), *final(allocator), damaged, r),
            match r {
                Ok(n) => {
                    let p = old(self).processes@[process_idx as int];
                    let q = final(self).processes@[process_idx as int];
                    &&& n < TOTAL_PAGES
                    &&& final(allocator).frames@[n as int].status != PageStatus::Quarantined
                    &&& frame_clean(final(allocator).frames@[n as int])
                    &&& same_contents(final(allocator).frames@[n as int], old(allocator).frames@[damaged as int])
                    &&& final(allocator).frames@[n as int].index == n
                    &&& q.pid == p.pid && q.name == p.name && q.is_critical == p.is_critical
                    &&& q.instruction_step == p.instruction_step
                    &&& q.allocated_pages@ == p.allocated_pages@.update(0, n)
                    &&& final(self).logs() == log_after(old(self).logs(), hotswap_msg(damaged, p.pid, n))
                },
                Err(_) => true,
            },
    {
        let pid = self.processes[process_idx].pid;
        let new_frame_idx = match allocator.relocate_and_quarantine(damaged) {
            Ok(n) => n,
            Err(e) => return Err(e),
        };
        proof {
            let n = new_frame_idx as int;
            assert forall|k: int| 0 <= k < PAGE_SIZE implies (#[trigger] decode_spec(
                allocator.frames@[n].data[k],
            )) is NoError && recovered_byte(allocator.frames@[n].data[k]) == recovered_byte(
                old(allocator).frames@[damaged as int].data[k],
            ) by {
                crate::ecc::lemma_decode_encode(
                    recovered_byte(old(allocator).frames@[damaged as int].data[k]),
                );
            }
        }
        let mut pos: usize = 0;
        let len = self.processes[process_idx].allocated_pages.len();
        while pos < len
            invariant
                process_idx < self.processes@.len(),
                len == self.processes@[process_idx as int].allocated_pages@.len(),
                self.processes == old(self).processes,
                pos <= len,
                forall|k: int|
                    0 <= k < pos ==> self.processes@[process_idx as int].allocated_pages@[k]
                        != damaged,
            decreases len - pos,
        {
            if self.processes[process_idx].allocated_pages[pos] == damaged {
                break;
            }
            pos = pos + 1;
        }
        assert(pos == 0);
        self.processes[process_idx].allocated_pages[pos] = new_frame_idx;
        let msg = String::from_str("HOT-SWAP: Frame ").concat(fmt_dec(damaged).as_str()).concat(
            " isolated/quarantined. PID ",
        ).concat(fmt_dec(pid as usize).as_str()).concat(" relocated to frame ").concat(
            fmt_dec(new_frame_idx).as_str(),
        );
        proof {
            assert(msg@ =~= hotswap_msg(damaged, pid, new_frame_idx));
        }
        self.log_event(msg.as_str());
        Ok(new_frame_idx)
    }
    /// Runs one step of process `pid`: the step counter advances, a value
    /// derived from it is written to the working page and the previous
    /// step's byte is read back. A write to a quarantined page or an
    /// uncorrectable read moves the process to a fresh frame first.
    #[verifier::rlimit(100)]
    #[verifier::spinoff_prover]
    pub fn execute_step(&mut self, pid: u32, allocator: &mut MemoryAllocator) -> (r: Result<
        (),
        &'static str,
    >)
        requires
            old(allocator).wf(),
            old(self).pages_in_range(),
            step_fits(old(self).processes@, pid),
        ensures
            final(allocator).wf(),
            final(self).pages_in_range(),
            execute_step_outcome(*old(self), *final(self), *old(allocator), *final(allocator), pid, r),
    {
        let process_idx = match self.find_process(pid) {
            Some(idx) => idx,
            None => return Err(ERR_NOT_FOUND),
        };
        proof {
            assert forall|i: int| has_pid_at(old(self).processes@, pid, i) implies i
                == process_idx by {
                if i < process_idx {
                    assert(old(self).processes@[i].pid == pid);
                } else if i > process_idx {
                    assert(old(self).processes@[process_idx as int].pid == pid);
                }
            }
        }
        if self.processes[process_idx].allocated_pages.len() == 0 {
            return Err(ERR_NO_MEMORY);
        }
        let step = self.processes[process_idx].instruction_step + 1;
        let frame_index = self.processes[process_idx].allocated_pages[0];
        let offset = (step * 7) % PAGE_SIZE;
        let simulated_val = (step * 17) as u8;
        let exec_msg = exec_message(
            self.processes[process_idx].name.as_str(),
            pid,
            simulated_val,
            frame_index,
            offset,
        );
        self.log_event(exec_msg.as_str());
        assert(frame_index < TOTAL_PAGES);
        let write_result = allocator.frames[frame_index].write_byte(offset, simulated_val);
        proof {
            crate::ecc::lemma_decode_encode(simulated_val);
            assert(write_result is Err ==> old(allocator).frames@[frame_index as int].status
                == PageStatus::Quarantined);
        }
        match write_result {
            Err(e) => {
                let ghost ae = *allocator;
                assert(ae.frames@ =~= old(allocator).frames@);
                assert(ae.allocation_map@ == old(allocator).allocation_map@);
                let r = self.step_on_quarantined_page(
                    process_idx,
                    frame_index,
                    offset,
                    simulated_val,
                    e,
                    allocator,
                );
                proof {
                    let roff = if step > 1 { ((step - 1) * 7) % (PAGE_SIZE as int) } else { offset as int };
                    let n = self.processes@[process_idx as int].allocated_pages@[0];
                    assert(read_back_swap(ae, *allocator, frame_index, offset as int, roff, simulated_val, n, r));
                    lemma_read_back_swap_views(ae, *old(allocator), *allocator, frame_index, offset as int, roff, simulated_val, n, r);
                    lemma_memory_after_refused_write(*old(allocator), ae, *allocator, frame_index, offset as int, roff, simulated_val, n, r);
                    assert(refused_write_result(ae, frame_index, r));
                    lemma_refused_write_views(ae, *old(allocator), frame_index, r);
                    assert(e == ERR_WRITE_QUARANTINED);
                    assert(step_logs(old(self).logs(), self.logs(), old(self).processes@[process_idx as int], *old(allocator), frame_index, offset as int, roff, simulated_val, n, r));
                    assert(step_outcome(*old(self), *self, *old(allocator), *allocator, process_idx as int, r));
                    assert forall|i: int| has_pid_at(old(self).processes@, pid, i) implies step_outcome(
                        *old(self),
                        *self,
                        *old(allocator),
                        *allocator,
                        i,
                        r,
                    ) by {
                        assert(i == process_idx);
                    }
                }
                r
            },
            Ok(()) => {
                let ghost aw = *allocator;
                proof {
                    assert forall|j: int| 0 <= j < TOTAL_PAGES implies #[trigger] aw.is_free(j)
                        == old(allocator).is_free(j) by {
                        if j != frame_index {
                            assert(aw.frames@[j] == old(allocator).frames@[j]);
                        }
                    }
                    assert(aw.frames@[frame_index as int].data@ == old(allocator).frames@[frame_index as int].data@.update(
                        offset as int,
                        encode_spec(simulated_val),
                    ));
                }
                let r = self.step_read_back(process_idx, frame_index, step, offset, simulated_val, allocator);
                proof {
                    let roff = if step > 1 { ((step - 1) * 7) % (PAGE_SIZE as int) } else { offset as int };
                    let n = self.processes@[process_idx as int].allocated_pages@[0];
                    let words = aw.frames@[frame_index as int].data@;
                    assert(aw.frames@[frame_index as int].data[roff] == words[roff]);
                    if decode_spec(words[roff]) is Uncorrectable {
                        lemma_hot_swapped_transfer(aw, *old(allocator), *allocator, frame_index, words, n, r);
                    }
                    assert(read_back_swap(*old(allocator), *allocator, frame_index, offset as int, roff, simulated_val, n, r));
                    lemma_memory_after_write(*old(allocator), aw, *allocator, frame_index, offset as int, roff, simulated_val, n, r);
                    assert(aw.frames@[frame_index as int].data[roff] == old(allocator).frames@[frame_index as int].data@.update(
                        offset as int,
                        encode_spec(simulated_val),
                    )[roff]);
                    assert(step_logs(old(self).logs(), self.logs(), old(self).processes@[process_idx as int], *old(allocator), frame_index, offset as int, roff, simulated_val, n, r));
                }
                r
            },
        }
    }

    /// The write path of a step whose working page is quarantined: the
    /// process is moved to a fresh frame and the write retried there; the
    /// step counter is left as it was.
    fn step_on_quarantined_page(
        &mut self,
        process_idx: usize,
        frame_index: usize,
        offset: usize,
        val: u8,
        e: &'static str,
        allocator: &mut MemoryAllocator,
    ) -> (r: Result<(), &'static str>)
        requires
            old(allocator).wf(),
            old(self).pages_in_range(),
            process_idx < old(self).processes@.len(),
            old(self).processes@[process_idx as int].allocated_pages@.len() > 0,
            old(self).processes@[process_idx as int].allocated_pages@[0] == frame_index,
            offset < PAGE_SIZE,
            frame_index < TOTAL_PAGES,
            old(allocator).frames@[frame_index as int].status == PageStatus::Quarantined,
        ensures
            final(allocator).wf(),
            final(self).pages_in_range(),
            final(self).processes@.len() == old(self).processes@.len(),
            forall|j: int|
                0 <= j < old(self).processes@.len() && j != process_idx ==> #[trigger] final(
                    self).processes@[j] == old(self).processes@[j],
            ({
                let p = old(self).processes@[process_idx as int];
                let q = final(self).processes@[process_idx as int];
                &&& q.pid == p.pid && q.name == p.name && q.is_critical == p.is_critical
                &&& q.instruction_step == p.instruction_step
                &&& q.allocated_pages@.len() == p.allocated_pages@.len()
                &&& q.allocated_pages@ == p.allocated_pages@.update(0, q.allocated_pages@[0])
                &&& r is Ok ==> recovered_byte(
                    final(allocator).frames@[q.allocated_pages@[0] as int].data[offset as int],
                ) == val
                &&& forall|ro: int|
                    #[trigger] read_back_swap(
                        *old(allocator),
                        *final(allocator),
                        frame_index,
                        offset as int,
                        ro,
                        val,
                        q.allocated_pages@[0],
                        r,
                    )
            }),
            ({
                let a = *old(allocator);
                let p = old(self).processes@[process_idx as int];
                let q = final(self).processes@[process_idx as int];
                let n = q.allocated_pages@[0];
                let logged = log_after(old(self).logs(), write_fault_msg(p.pid, e@));
                &&& r is Ok <==> a.allocation_map@[frame_index as int] is Some && exists|j: int|
                    0 <= j < TOTAL_PAGES && j != frame_index && a.is_free(j)
                &&& a.allocation_map@[frame_index as int] is None ==> r == Err::<(), &'static str>(
                    ERR_RELOCATE_UNALLOCATED,
                ) && *final(allocator) == a
                &&& a.allocation_map@[frame_index as int] is Some && r is Err ==> r == Err::<
                    (),
                    &'static str,
                >(ERR_RELOCATE_OOM)
                &&& forall|g: int|
                    0 <= g < TOTAL_PAGES && g != frame_index && g != n ==> #[trigger] final(allocator).frames@[g]
                        == a.frames@[g] && final(allocator).allocation_map@[g] == a.allocation_map@[g]
                &&& r is Err ==> final(self).processes == old(self).processes && final(self).logs()
                    == logged
                &&& r is Ok ==> {
                    &&& n != frame_index && a.is_free(n as int)
                    &&& forall|j: int| 0 <= j < n && j != frame_index ==> !a.is_free(j)
                    &&& final(self).logs() == log_after(logged, hotswap_msg(frame_index, p.pid, n))
                }
            }),
    {
        let pid = self.processes[process_idx].pid;
        let fault_msg = String::from_str("FAULT: Write error for PID ").concat(
            fmt_dec(pid as usize).as_str(),
        ).concat(": ").concat(e).concat(". Relocating...");
        proof {
            assert(fault_msg@ =~= write_fault_msg(pid, e@));
        }
        self.log_event(fault_msg.as_str());
        let new_frame_idx = match self.handle_fault(process_idx, frame_index, allocator) {
            Ok(n) => n,
            Err(err) => return Err(err),
        };
        let retry = allocator.frames[new_frame_idx].write_byte(offset, val);
        proof {
            crate::ecc::lemma_decode_encode(val);
        }
        match retry {
            Ok(()) => {},
            Err(err) => return Err(err),
        }
        self.processes[process_idx].allocated_pages[0] = new_frame_idx;
        Ok(())
    }

    /// The read-back path of a step whose write succeeded: the previous
    /// step's byte is read (and repaired); an uncorrectable word moves the
    /// process to a fresh frame and the read is retried there. The step
    /// counter is then advanced.
    fn step_read_back(
        &mut self,
        process_idx: usize,
        frame_index: usize,
        step: usize,
        offset: usize,
        val: u8,
        allocator: &mut MemoryAllocator,
    ) -> (r: Result<(), &'static str>)
        requires
            old(allocator).wf(),
            old(self).pages_in_range(),
            process_idx < old(self).processes@.len(),
            old(self).processes@[process_idx as int].allocated_pages@.len() > 0,
            old(self).processes@[process_idx as int].allocated_pages@[0] == frame_index,
            frame_index < TOTAL_PAGES,
            offset == (step * 7) % (PAGE_SIZE as int),
            1 <= step && step * 17 <= usize::MAX,
            decode_spec(old(allocator).frames@[frame_index as int].data[offset as int])
                == DecodeResult::NoError(val),
        ensures
            final(allocator).wf(),
            final(self).pages_in_range(),
            final(self).processes@.len() == old(self).processes@.len(),
            forall|j: int|
                0 <= j < old(self).processes@.len() && j != process_idx ==> #[trigger] final(
                    self).processes@[j] == old(self).processes@[j],
            ({
                let p = old(self).processes@[process_idx as int];
                let q = final(self).processes@[process_idx as int];
                let roff = if step > 1 { ((step - 1) * 7) % (PAGE_SIZE as int) } else { offset as int };
                &&& q.pid == p.pid && q.name == p.name && q.is_critical == p.is_critical
                &&& q.allocated_pages@.len() == p.allocated_pages@.len()
                &&& q.allocated_pages@ == p.allocated_pages@.update(0, q.allocated_pages@[0])
                &&& r is Ok ==> q.instruction_step == step
                &&& r is Err ==> q.instruction_step == p.instruction_step
                &&& r is Ok ==> recovered_byte(
                    final(allocator).frames@[q.allocated_pages@[0] as int].data[offset as int],
                ) == val
                &&& !(decode_spec(old(allocator).frames@[frame_index as int].data[roff])
                    is Uncorrectable) ==> r is Ok && q.allocated_pages@[0] == frame_index
                &&& decode_spec(old(allocator).frames@[frame_index as int].data[roff]) is Uncorrectable
                    ==> hot_swapped(
                    *old(allocator),
                    *final(allocator),
                    frame_index,
                    old(allocator).frames@[frame_index as int].data@,
                    q.allocated_pages@[0],
                    r,
                )
                    && (r is Ok ==> q.instruction_step == step)
                &&& forall|g: int|
                    0 <= g < TOTAL_PAGES && g != frame_index && g != q.allocated_pages@[0] ==> #[trigger] final(
                        allocator).frames@[g] == old(allocator).frames@[g] && final(allocator).allocation_map@[g]
                        == old(allocator).allocation_map@[g]
                &&& read_back_logs(
                    old(self).logs(),
                    final(self).logs(),
                    old(allocator).frames@[frame_index as int].data[roff],
                    frame_index,
                    roff as usize,
                    p.pid,
                    q.allocated_pages@[0],
                    r,
                )
                &&& !(decode_spec(old(allocator).frames@[frame_index as int].data[roff]) is Uncorrectable)
                    ==> read_back_in_place(
                    old(allocator).frames@[frame_index as int],
                    final(allocator).frames@[frame_index as int],
                    roff,
                ) && final(allocator).allocation_map@ == old(allocator).allocation_map@
            }),
    {
        let pid = self.processes[process_idx].pid;
        let read_offset = if step > 1 {
            ((step - 1) * 7) % PAGE_SIZE
        } else {
            offset
        };
        let ghost a1 = *allocator;
        assert(allocator.frames@[frame_index as int].index == frame_index);
        let read_result = allocator.frames[frame_index].read_byte(read_offset);
        match read_result {
            Ok((read_val, correction_opt)) => {
                let ghost l0 = self.logs();
                if let Some(event) = correction_opt {
                    let repair_msg = repair_message(event);
                    self.log_event(repair_msg.as_str());
                }
                let ghost l1 = self.logs();
                let verify_msg = String::from_str("READ VERIFY: PID ").concat(
                    fmt_dec(pid as usize).as_str(),
                ).concat(" read back value ").concat(fmt_hex_byte(read_val).as_str()).concat(
                    " from offset ",
                ).concat(fmt_dec(read_offset).as_str());
                proof {
                    assert(verify_msg@ =~= read_verify_msg(pid, read_val, read_offset));
                }
                self.log_event(verify_msg.as_str());
                proof {
                    let w = a1.frames@[frame_index as int].data[read_offset as int];
                    if let DecodeResult::Corrected(v, _) = decode_spec(w) {
                        crate::ecc::lemma_decode_encode(v);
                    }
                    assert(a1.frames@[frame_index as int].index == frame_index);
                    assert(read_back_logs(l0, self.logs(), w, frame_index, read_offset, pid, frame_index, Ok(())));
                }
            },
            Err(damaged_frame_idx) => {
                let critical_msg = String::from_str("CRITICAL FAULT: Double-bit flip on frame ").concat(
                    fmt_dec(damaged_frame_idx).as_str(),
                ).concat(" at offset ").concat(fmt_dec(read_offset).as_str()).concat(
                    ". Hot-swapping and relocating PID ",
                ).concat(fmt_dec(pid as usize).as_str()).concat("...");
                proof {
                    assert(critical_msg@ =~= double_flip_read_msg(damaged_frame_idx, read_offset, pid));
                }
                self.log_event(critical_msg.as_str());
                let ghost am = *allocator;
                proof {
                    assert(damaged_frame_idx == frame_index);
                    assert forall|j: int| 0 <= j < TOTAL_PAGES && j != frame_index implies #[trigger] am.is_free(j)
                        == a1.is_free(j) by {
                        assert(am.frames@[j] == a1.frames@[j]);
                    }
                }
                let new_frame_idx = match self.handle_fault(process_idx, damaged_frame_idx, allocator) {
                    Ok(n) => n,
                    Err(err) => {
                        proof {
                            if exists|j: int| 0 <= j < TOTAL_PAGES && j != frame_index && a1.is_free(j) {
                                let j = choose|j: int|
                                    0 <= j < TOTAL_PAGES && j != frame_index && a1.is_free(j);
                                assert(am.is_free(j));
                            }
                        }
                        return Err(err);
                    },
                };
                let ghost ah = *allocator;
                proof {
                    let n = new_frame_idx as int;
                    assert(a1.is_free(n));
                    assert forall|k: int| 0 <= k < PAGE_SIZE implies #[trigger] recovered_byte(
                        ah.frames@[n].data[k],
                    ) == recovered_byte(a1.frames@[frame_index as int].data[k]) by {
                        assert(recovered_byte(ah.frames@[n].data[k]) == recovered_byte(
                            am.frames@[frame_index as int].data[k],
                        ));
                    }
                    assert(decode_spec(ah.frames@[n].data[read_offset as int]) is NoError);
                }
                let retry = allocator.frames[new_frame_idx].read_byte(read_offset);
                let retry_val = match retry {
                    Ok((v, _)) => v,
                    Err(_) => return Err(ERR_RETRY_READ),
                };
                let resume_msg = String::from_str("RESUME: PID ").concat(
                    fmt_dec(pid as usize).as_str(),
                ).concat(" successfully recovered on healthy frame ").concat(
                    fmt_dec(new_frame_idx).as_str(),
                ).concat(". Read byte: ").concat(fmt_hex_byte(retry_val).as_str());
                proof {
                    assert(resume_msg@ =~= resumed_msg(pid, new_frame_idx, retry_val));
                    assert(recovered_byte(ah.frames@[new_frame_idx as int].data[read_offset as int]) == retry_val);
                    assert(retry_val == recovered_byte(a1.frames@[frame_index as int].data[read_offset as int]));
                }
                self.log_event(resume_msg.as_str());
                proof {
                    let n = new_frame_idx as int;
                    let af = *allocator;
                    assert(af.frames@[n] == ah.frames@[n]);
                    assert(af.frames@[frame_index as int] == ah.frames@[frame_index as int]);
                    assert(same_contents(af.frames@[n], a1.frames@[frame_index as int]));
                    assert forall|j: int| 0 <= j < new_frame_idx && j != frame_index implies !a1.is_free(j) by {
                        assert(!am.is_free(j));
                    }
                    assert(hot_swapped(a1, af, frame_index, a1.frames@[frame_index as int].data@, new_frame_idx, Ok(())));
                    assert(self.processes@[process_idx as int].allocated_pages@[0] == new_frame_idx);
                }
            },
        }
        self.processes[process_idx].instruction_step = step;
        Ok(())
    }
}

/// Log line of a successful read-back.
pub open spec fn read_verify_msg(pid: u32, v: u8, off: usize) -> Seq<char> {
    "READ VERIFY: PID "@ + dec(pid as nat) + " read back value "@ + hex_byte(v) + " from offset "@ + dec(
        off as nat,
    )
}

/// Log line of a read-back that met an uncorrectable word.
pub open spec fn double_flip_read_msg(frame: usize, off: usize, pid: u32) -> Seq<char> {
    "CRITICAL FAULT: Double-bit flip on frame "@ + dec(frame as nat) + " at offset "@ + dec(off as nat)
        + ". Hot-swapping and relocating PID "@ + dec(pid as nat) + "..."@
}

/// Log line of a process resumed on frame `n`.
pub open spec fn resumed_msg(pid: u32, n: usize, v: u8) -> Seq<char> {
    "RESUME: PID "@ + dec(pid as nat) + " successfully recovered on healthy frame "@ + dec(n as nat)
        + ". Read byte: "@ + hex_byte(v)
}

/// The log after reading back word `w` at offset `off` of frame `f` for
/// process `pid`, from log `l0`: a clean word logs the value read; a
/// repaired one first logs the repair; an uncorrectable one logs the fault,
/// then (when the page moved to frame `n`) the hot swap and the resumption
/// with the salvaged byte.
pub open spec fn read_back_logs(
    l0: Seq<Seq<char>>,
    l1: Seq<Seq<char>>,
    w: u16,
    f: usize,
    off: usize,
    pid: u32,
    n: usize,
    r: Result<(), &'static str>,
) -> bool {
    match decode_spec(w) {
        DecodeResult::NoError(v) => l1 == log_after(l0, read_verify_msg(pid, v, off)),
        DecodeResult::Corrected(v, p) => l1 == log_after(
            log_after(l0, repair_msg(CorrectionEvent { frame_index: f, offset: off, bit_position: p })),
            read_verify_msg(pid, v, off),
        ),
        DecodeResult::Uncorrectable => {
            let lc = log_after(l0, double_flip_read_msg(f, off, pid));
            if r is Ok {
                l1 == log_after(log_after(lc, hotswap_msg(f, pid, n)), resumed_msg(pid, n, recovered_byte(w)))
            } else {
                l1 == lc
            }
        },
    }
}

/// The words of a page after word `roff` is read: a word with one flipped
/// bit is rewritten as the codeword of its byte, any other is left alone.
pub open spec fn after_read(words: Seq<u16>, roff: int) -> Seq<u16> {
    match decode_spec(words[roff]) {
        DecodeResult::Corrected(v, _) => words.update(roff, encode_spec(v)),
        _ => words,
    }
}

/// The health of a page after one of its words `w` is read.
pub open spec fn status_after_read(s: PageStatus, w: u16) -> PageStatus {
    match decode_spec(w) {
        DecodeResult::Corrected(_, _) => status_after_correction(s),
        DecodeResult::Uncorrectable => PageStatus::Quarantined,
        DecodeResult::NoError(_) => s,
    }
}

/// Frame `g` is frame `f` after word `roff` was read and repaired in place.
pub open spec fn read_back_in_place(f: PhysicalFrame, g: PhysicalFrame, roff: int) -> bool {
    &&& g.data@ == after_read(f.data@, roff)
    &&& g.status == status_after_read(f.status, f.data[roff])
    &&& same_identity(g, f)
}

/// What reading back an uncorrectable word of frame `f` does: when `f` is
/// owned and another frame is free, the step succeeds; on success `f` is
/// quarantined and released and the page `n` now used is the lowest free
/// frame, owned by `f`'s owner and holding the salvageable bytes of `f`'s
/// words `words`.
pub open spec fn hot_swapped(
    a0: MemoryAllocator,
    a1: MemoryAllocator,
    f: usize,
    words: Seq<u16>,
    n: usize,
    r: Result<(), &'static str>,
) -> bool {
    &&& a0.allocation_map@[f as int] is Some && (exists|j: int|
        0 <= j < TOTAL_PAGES && j != f && a0.is_free(j)) ==> r is Ok
    &&& r is Ok ==> {
        &&& n != f && n < TOTAL_PAGES && a0.is_free(n as int)
        &&& forall|j: int| 0 <= j < n && j != f ==> !a0.is_free(j)
        &&& a1.allocation_map@[n as int] == a0.allocation_map@[f as int]
        &&& a1.allocation_map@[f as int] is None
        &&& a1.frames@[f as int].status == PageStatus::Quarantined
        &&& forall|k: int|
            0 <= k < PAGE_SIZE ==> #[trigger] recovered_byte(a1.frames@[n as int].data[k])
                == recovered_byte(words[k])
    }
}

/// A step whose write to frame `f` succeeded but whose read-back word is
/// uncorrectable hot-swaps the page (see `hot_swapped`).
pub open spec fn read_back_swap(
    a0: MemoryAllocator,
    a1: MemoryAllocator,
    f: usize,
    off: int,
    roff: int,
    val: u8,
    n: usize,
    r: Result<(), &'static str>,
) -> bool {
    let words = a0.frames@[f as int].data@.update(off, encode_spec(val));
    a0.frames@[f as int].status != PageStatus::Quarantined && decode_spec(words[roff]) is Uncorrectable
        ==> hot_swapped(a0, a1, f, words, n, r)
}

/// `read_back_swap` depends on the memory before the step only through its
/// frames and its owners.
proof fn lemma_read_back_swap_views(
    a: MemoryAllocator,
    b: MemoryAllocator,
    a1: MemoryAllocator,
    f: usize,
    off: int,
    roff: int,
    val: u8,
    n: usize,
    r: Result<(), &'static str>,
)
    requires
        a.frames@ == b.frames@,
        a.allocation_map@ == b.allocation_map@,
        read_back_swap(a, a1, f, off, roff, val, n, r),
    ensures
        read_back_swap(b, a1, f, off, roff, val, n, r),
{
    assert forall|j: int| a.is_free(j) == b.is_free(j) by {}
}

/// `hot_swapped` depends on the memory before the step only through its
/// owners and its free frames.
proof fn lemma_hot_swapped_transfer(
    a: MemoryAllocator,
    b: MemoryAllocator,
    a1: MemoryAllocator,
    f: usize,
    words: Seq<u16>,
    n: usize,
    r: Result<(), &'static str>,
)
    requires
        a.allocation_map@ == b.allocation_map@,
        forall|j: int| 0 <= j < TOTAL_PAGES ==> #[trigger] a.is_free(j) == b.is_free(j),
        hot_swapped(a, a1, f, words, n, r),
    ensures
        hot_swapped(b, a1, f, words, n, r),
{
    if exists|j: int| 0 <= j < TOTAL_PAGES && j != f && b.is_free(j) {
        let j = choose|j: int| 0 <= j < TOTAL_PAGES && j != f && b.is_free(j);
        assert(a.is_free(j));
    }
    if r is Ok {
        assert(a.is_free(n as int));
        assert forall|j: int| 0 <= j < n && j != f implies !b.is_free(j) by {
            assert(!a.is_free(j));
        }
    }
}

/// Log line announcing a step's write.
pub open spec fn exec_msg(name: Seq<char>, pid: u32, val: u8, frame: usize, offset: usize) -> Seq<
    char,
> {
    "EXEC: '"@ + name + "' (PID: "@ + dec(pid as nat) + ") writing "@ + hex_byte(val)
        + " to frame "@ + dec(frame as nat) + ", offset "@ + dec(offset as nat)
}

/// Log line of a single-bit repair.
pub open spec fn repair_msg(event: CorrectionEvent) -> Seq<char> {
    "ECC REPAIR: Corrected single-bit flip on frame "@ + dec(event.frame_index as nat)
        + ", offset "@ + dec(event.offset as nat) + ", flipped bit "@ + dec(
        event.bit_position as nat,
    )
}

/// Log line of a hot swap: frame `damaged` of process `pid` is quarantined
/// and its contents now live on frame `n`.
pub open spec fn hotswap_msg(damaged: usize, pid: u32, n: usize) -> Seq<char> {
    "HOT-SWAP: Frame "@ + dec(damaged as nat) + " isolated/quarantined. PID "@ + dec(pid as nat)
        + " relocated to frame "@ + dec(n as nat)
}

/// What relocating the contents of frame `damaged` does to the memory and
/// answers: an unowned frame is refused and nothing changes; an owned one is
/// quarantined and handed back, and its contents move to the lowest free
/// frame, unless no frame is free.
pub open spec fn relocation_outcome(
    a0: MemoryAllocator,
    a1: MemoryAllocator,
    damaged: usize,
    r: Result<usize, &'static str>,
) -> bool {
    &&& a0.allocation_map@[damaged as int] is None ==> r == Err::<usize, &'static str>(
        ERR_RELOCATE_UNALLOCATED,
    ) && a1 == a0
    &&& forall|j: int|
        0 <= j < TOTAL_PAGES && j != damaged && !(r matches Ok(n) && n == j) ==> #[trigger] a1.frames@[j]
            == a0.frames@[j] && a1.allocation_map@[j] == a0.allocation_map@[j]
    &&& a0.allocation_map@[damaged as int] is Some ==> {
        &&& a1.frames@[damaged as int].status == PageStatus::Quarantined
        &&& (forall|j: int| 0 <= j < TOTAL_PAGES && j != damaged ==> !a0.is_free(j)) ==> r
            == Err::<usize, &'static str>(ERR_RELOCATE_OOM)
            && a1.allocation_map@ == a0.allocation_map@.update(damaged as int, None)
        &&& (exists|j: int| 0 <= j < TOTAL_PAGES && j != damaged && a0.is_free(j)) ==> r is Ok
        &&& r matches Ok(n) ==> {
            &&& n != damaged && a0.is_free(n as int)
            &&& forall|j: int| 0 <= j < n && j != damaged ==> !a0.is_free(j)
            &&& a1.allocation_map@ == a0.allocation_map@.update(damaged as int, None).update(
                n as int,
                a0.allocation_map@[damaged as int],
            )
        }
    }
}

/// Log line of a write refused by the working page of process `pid`.
pub open spec fn write_fault_msg(pid: u32, e: Seq<char>) -> Seq<char> {
    "FAULT: Write error for PID "@ + dec(pid as nat) + ": "@ + e + ". Relocating..."@
}

/// Log line announcing a step's write.
fn exec_message(name: &str, pid: u32, val: u8, frame: usize, offset: usize) -> (s: String)
    ensures
        s@ == exec_msg(name@, pid, val, frame, offset),
{
    let s = String::from_str("EXEC: '").concat(name).concat("' (PID: ").concat(
        fmt_dec(pid as usize).as_str(),
    ).concat(") writing ").concat(fmt_hex_byte(val).as_str()).concat(" to frame ").concat(
        fmt_dec(frame).as_str(),
    ).concat(", offset ").concat(fmt_dec(offset).as_str());
    proof {
        assert(s@ =~= exec_msg(name@, pid, val, frame, offset));
    }
    s
}

/// Log line of a single-bit repair.
fn repair_message(event: CorrectionEvent) -> (s: String)
    ensures
        s@ == repair_msg(event),
{
    let s = String::from_str("ECC REPAIR: Corrected single-bit flip on frame ").concat(
        fmt_dec(event.frame_index).as_str(),
    ).concat(", offset ").concat(fmt_dec(event.offset).as_str()).concat(", flipped bit ").concat(
        fmt_dec(event.bit_position).as_str(),
    );
    proof {
        assert(s@ =~= repair_msg(event));
    }
    s
}

/// What stepping process `pid` does: an unknown pid is reported and
/// changes nothing; otherwise the first process with that pid takes a step.
pub open spec fn execute_step_outcome(
    d0: TaskDispatcher,
    d1: TaskDispatcher,
    a0: MemoryAllocator,
    a1: MemoryAllocator,
    pid: u32,
    r: Result<(), &'static str>,
) -> bool {
    &&& (forall|j: int| 0 <= j < d0.processes@.len() ==> d0.processes@[j].pid != pid) ==> r
        == Err::<(), &'static str>(ERR_NOT_FOUND) && d1 == d0 && a1 == a0
    &&& forall|i: int| has_pid_at(d0.processes@, pid, i) ==> step_outcome(d0, d1, a0, a1, i, r)
}

/// What one step of the process at index `i` does to the process table and
/// the memory: only that process changes, its working page afterwards holds
/// the step's value at the step's offset, and the step completes whenever no
/// relocation is needed.
pub open spec fn step_outcome(
    d0: TaskDispatcher,
    d1: TaskDispatcher,
    a0: MemoryAllocator,
    a1: MemoryAllocator,
    i: int,
    r: Result<(), &'static str>,
) -> bool {
    let p = d0.processes@[i];
    if p.allocated_pages@.len() == 0 {
        r == Err::<(), &'static str>(ERR_NO_MEMORY) && d1 == d0 && a1 == a0
    } else {
        let step = p.instruction_step + 1;
        let off = (step * 7) % (PAGE_SIZE as int);
        let val = (step * 17) as u8;
        let f = p.allocated_pages@[0];
        let roff = if step > 1 { ((step - 1) * 7) % (PAGE_SIZE as int) } else { off };
        let q = d1.processes@[i];
        &&& d1.processes@.len() == d0.processes@.len()
        &&& forall|j: int|
            0 <= j < d0.processes@.len() && j != i ==> #[trigger] d1.processes@[j]
                == d0.processes@[j]
        &&& q.pid == p.pid && q.name == p.name && q.is_critical == p.is_critical
        &&& q.allocated_pages@.len() == p.allocated_pages@.len()
        &&& q.allocated_pages@ == p.allocated_pages@.update(0, q.allocated_pages@[0])
        &&& r is Err ==> q.instruction_step == p.instruction_step
        &&& r is Ok ==> recovered_byte(a1.frames@[q.allocated_pages@[0] as int].data[off]) == val
        &&& r is Ok && a0.frames@[f as int].status == PageStatus::Quarantined ==> q.instruction_step
            == p.instruction_step
        &&& r is Ok && a0.frames@[f as int].status != PageStatus::Quarantined ==> q.instruction_step
            == step
        &&& a0.frames@[f as int].status != PageStatus::Quarantined && !(decode_spec(
            a0.frames@[f as int].data@.update(off, encode_spec(val))[roff],
        ) is Uncorrectable) ==> r is Ok && q.allocated_pages@[0] == f
        &&& read_back_swap(a0, a1, f, off, roff, val, q.allocated_pages@[0], r)
        &&& step_memory(a0, a1, f, off, roff, val, q.allocated_pages@[0], r)
        &&& a0.frames@[f as int].status == PageStatus::Quarantined ==> refused_write_result(a0, f, r)
        &&& step_logs(d0.logs(), d1.logs(), p, a0, f, off, roff, val, q.allocated_pages@[0], r)
    }
}

/// The log after a step of process `p` from log `l0`: the write is
/// announced; a page that refuses it logs the fault and, when the page
/// moved to frame `n`, the hot swap; otherwise the read-back is logged (see
/// `read_back_logs`).
pub open spec fn step_logs(
    l0: Seq<Seq<char>>,
    l1: Seq<Seq<char>>,
    p: KernelProcess,
    a0: MemoryAllocator,
    f: usize,
    off: int,
    roff: int,
    val: u8,
    n: usize,
    r: Result<(), &'static str>,
) -> bool {
    let le = log_after(l0, exec_msg(p.name@, p.pid, val, f, off as usize));
    if a0.frames@[f as int].status == PageStatus::Quarantined {
        let lf = log_after(le, write_fault_msg(p.pid, ERR_WRITE_QUARANTINED@));
        if r is Ok {
            l1 == log_after(lf, hotswap_msg(f, p.pid, n))
        } else {
            l1 == lf
        }
    } else {
        read_back_logs(
            le,
            l1,
            a0.frames@[f as int].data@.update(off, encode_spec(val))[roff],
            f,
            roff as usize,
            p.pid,
            n,
            r,
        )
    }
}

/// The result of a step whose working page `f` refuses the write: it
/// succeeds exactly when `f` is owned and another frame is free; otherwise
/// it fails with the relocation's error.
pub open spec fn refused_write_result(a0: MemoryAllocator, f: usize, r: Result<(), &'static str>) -> bool {
    &&& r is Ok <==> a0.allocation_map@[f as int] is Some && exists|j: int|
        0 <= j < TOTAL_PAGES && j != f && a0.is_free(j)
    &&& a0.allocation_map@[f as int] is None ==> r == Err::<(), &'static str>(ERR_RELOCATE_UNALLOCATED)
    &&& a0.allocation_map@[f as int] is Some && r is Err ==> r == Err::<(), &'static str>(ERR_RELOCATE_OOM)
}

/// `refused_write_result` depends on the memory only through its frames
/// and owners.
proof fn lemma_refused_write_views(a: MemoryAllocator, b: MemoryAllocator, f: usize, r: Result<(), &'static str>)
    requires
        a.frames@ == b.frames@,
        a.allocation_map@ == b.allocation_map@,
        refused_write_result(a, f, r),
    ensures
        refused_write_result(b, f, r),
{
    assert forall|j: int| a.is_free(j) == b.is_free(j) by {}
    if exists|j: int| 0 <= j < TOTAL_PAGES && j != f && b.is_free(j) {
        let j = choose|j: int| 0 <= j < TOTAL_PAGES && j != f && b.is_free(j);
        assert(a.is_free(j));
    }
}

/// The memory after a step whose write the working page refused: only the
/// old and the new working page changed.
proof fn lemma_memory_after_refused_write(
    a0: MemoryAllocator,
    ae: MemoryAllocator,
    a1: MemoryAllocator,
    f: usize,
    off: int,
    roff: int,
    val: u8,
    n: usize,
    r: Result<(), &'static str>,
)
    requires
        ae.frames@ == a0.frames@,
        ae.allocation_map@ == a0.allocation_map@,
        forall|g: int|
            0 <= g < TOTAL_PAGES && g != f && g != n ==> #[trigger] a1.frames@[g] == ae.frames@[g]
                && a1.allocation_map@[g] == ae.allocation_map@[g],
        r is Ok ==> n != f,
    ensures
        step_memory(a0, a1, f, off, roff, val, n, r),
{
}

/// The memory after a step whose write succeeded (`aw` right after it).
proof fn lemma_memory_after_write(
    a0: MemoryAllocator,
    aw: MemoryAllocator,
    a1: MemoryAllocator,
    f: usize,
    off: int,
    roff: int,
    val: u8,
    n: usize,
    r: Result<(), &'static str>,
)
    requires
        0 <= f < TOTAL_PAGES,
        aw.allocation_map@ == a0.allocation_map@,
        forall|g: int| 0 <= g < TOTAL_PAGES && g != f ==> #[trigger] aw.frames@[g] == a0.frames@[g],
        aw.frames@[f as int].data@ == a0.frames@[f as int].data@.update(off, encode_spec(val)),
        aw.frames@[f as int].status == a0.frames@[f as int].status,
        same_identity(aw.frames@[f as int], a0.frames@[f as int]),
        forall|g: int|
            0 <= g < TOTAL_PAGES && g != f && g != n ==> #[trigger] a1.frames@[g] == aw.frames@[g]
                && a1.allocation_map@[g] == aw.allocation_map@[g],
        r is Ok && n == f ==> read_back_in_place(aw.frames@[f as int], a1.frames@[f as int], roff)
            && a1.allocation_map@ == aw.allocation_map@,
    ensures
        step_memory(a0, a1, f, off, roff, val, n, r),
{
    assert forall|g: int| 0 <= g < TOTAL_PAGES && g != f && g != n implies #[trigger] a1.frames@[g]
        == a0.frames@[g] && a1.allocation_map@[g] == a0.allocation_map@[g] by {
        assert(aw.frames@[g] == a0.frames@[g]);
        assert(a1.frames@[g] == aw.frames@[g]);
        assert(a1.allocation_map@[g] == aw.allocation_map@[g]);
        assert(aw.allocation_map@[g] == a0.allocation_map@[g]);
    }
    if r is Ok && n == f {
        assert(aw.frames@[f as int].data[roff] == aw.frames@[f as int].data@[roff]);
    }
}

/// What a step does to the memory, with `f` the working page before it and
/// `n` after it: frames other than these two, and their owners, are left
/// alone; a step that completes in place leaves every owner as it was and
/// the page holding its old words with the codeword of `val` at `off`, the
/// word at `roff` then read back (and repaired if one bit was flipped).
pub open spec fn step_memory(
    a0: MemoryAllocator,
    a1: MemoryAllocator,
    f: usize,
    off: int,
    roff: int,
    val: u8,
    n: usize,
    r: Result<(), &'static str>,
) -> bool {
    let words = a0.frames@[f as int].data@.update(off, encode_spec(val));
    &&& forall|g: int|
        0 <= g < TOTAL_PAGES && g != f && g != n ==> #[trigger] a1.frames@[g] == a0.frames@[g]
            && a1.allocation_map@[g] == a0.allocation_map@[g]
    &&& r is Ok && n == f ==> {
        &&& a1.allocation_map@ == a0.allocation_map@
        &&& a1.frames@[f as int].data@ == after_read(words, roff)
        &&& a1.frames@[f as int].status == status_after_read(a0.frames@[f as int].status, words[roff])
        &&& same_identity(a1.frames@[f as int], a0.frames@[f as int])
    }
}

} // verus!
