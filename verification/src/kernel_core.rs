//! The kernel core: boot, the periodic tick that steps every process,
//! scrubs memory and runs the redundant navigation computation, and fault
//! injection.
use vstd::prelude::*;
use vstd::string::*;
use crate::allocator::{MemoryAllocator, CorrectionEvent, TOTAL_PAGES, PAGE_SIZE, flip_outcome, count_true};
use crate::scrubber::{MemoryScrubber, ScrubReport, sweep_outcome, active_below, lemma_active_below_len};
use crate::dispatcher::{
    TaskDispatcher, KernelProcess, log_after, execute_step_outcome, has_pid_at, step_outcome, lemma_first_pid,
    tmr_active_msg, tmr_success_msg, spawn_msg, LOG_CAPACITY,
};
use crate::tmr::{TmrResult, TmrStatus, vote_outcome};
use crate::vfs::{
    VirtualFileSystem, components, entry_named, lemma_components_child, lemma_lookup_at, is_empty_dir,
    free_after_release, in_blocks, holds_data, file_bytes, block_count, owner_after_release,
};
use crate::vfs_laws::lemma_holds_data_readable;
use crate::inode::InodeType;
use crate::text::{fmt_dec, dec};

verus! {

/// Name under which the navigation computation runs redundantly.
pub const ORBITAL_TASK: &'static str = "Orbital Navigation Delta-V";

/// The kernel's state: memory, processes, files and fault counters.
pub struct SystemCore {
    /// The page frame allocator.
    pub allocator: MemoryAllocator,
    /// The process table and event log.
    pub dispatcher: TaskDispatcher,
    /// The file system.
    pub vfs: VirtualFileSystem,
    /// Scrubber sweeps run so far.
    pub scrubber_sweeps: usize,
    /// Single-bit flips repaired by the scrubber.
    pub ecc_single_bit_corrections: usize,
    /// Frames quarantined by the scrubber.
    pub pages_quarantined: usize,
    /// Frames whose contents the scrubber moved to a fresh frame.
    pub pages_relocated: usize,
    /// Redundant computations run.
    pub critical_tmr_ops: usize,
    /// Redundant computations in which the voter outvoted a faulty runner.
    pub tmr_voter_corrections: usize,
}

/// Log line of an injected fault.
pub open spec fn flip_msg(bit: u8, frame: usize, offset: usize) -> Seq<char> {
    "INJECTOR: Flipped bit "@ + dec(bit as nat) + " at frame "@ + dec(frame as nat) + ", offset "@ + dec(
        offset as nat,
    )
}

/// Log line of a repair made by a sweep.
pub open spec fn scrub_fix_msg(e: CorrectionEvent) -> Seq<char> {
    "SCRUBBER DETECT: Corrected single-bit flip on frame "@ + dec(e.frame_index as nat) + ", offset "@
        + dec(e.offset as nat)
}

/// Log line of a relocation made by a sweep.
pub open spec fn scrub_move_msg(damaged: usize, fresh: usize) -> Seq<char> {
    "SCRUBBER SEVERE: Quarantine triggered! Hot-swapped damaged frame "@ + dec(damaged as nat)
        + " to fresh frame "@ + dec(fresh as nat)
}

/// The log after recording each of `msgs` in turn.
pub open spec fn log_all(logs: Seq<Seq<char>>, msgs: Seq<Seq<char>>) -> Seq<Seq<char>>
    decreases msgs.len(),
{
    if msgs.len() == 0 {
        logs
    } else {
        log_after(log_all(logs, msgs.drop_last()), msgs.last())
    }
}

/// The log lines of a sweep report: its repairs, then its relocations.
pub open spec fn scrub_msgs(report: ScrubReport) -> Seq<Seq<char>> {
    report.corrections@.map_values(|e: CorrectionEvent| scrub_fix_msg(e)) + report.relocations@.map_values(
        |p: (usize, usize)| scrub_move_msg(p.0, p.1),
    )
}

/// The pids of a process table, in order.
pub open spec fn pids_of(ps: Seq<KernelProcess>) -> Seq<u32> {
    ps.map_values(|p: KernelProcess| p.pid)
}

/// `d1`, `a1` are what stepping the processes `pids` one after another
/// leaves of `d0`, `a0`.
pub open spec fn steps_done(
    d0: TaskDispatcher,
    a0: MemoryAllocator,
    pids: Seq<u32>,
    d1: TaskDispatcher,
    a1: MemoryAllocator,
) -> bool
    decreases pids.len(),
{
    if pids.len() == 0 {
        d1 == d0 && a1 == a0
    } else {
        exists|dm: TaskDispatcher, am: MemoryAllocator, r: Result<(), &'static str>|
            steps_done(d0, a0, pids.drop_last(), dm, am) && #[trigger] execute_step_outcome(
                dm,
                d1,
                am,
                a1,
                pids.last(),
                r,
            )
    }
}

/// The navigation computation of run number `ops` has a simulated register
/// fault in its second runner.
pub open spec fn faulty_run(ops: int) -> bool {
    ops % 5 == 0
}

impl SystemCore {
    /// The subsystems are well formed.
    pub open spec fn wf(&self) -> bool {
        &&& self.allocator.wf()
        &&& self.dispatcher.pages_in_range()
        &&& self.vfs.wf()
    }

    /// The fault counters, in declaration order.
    pub open spec fn counters(&self) -> (usize, usize, usize, usize, usize, usize) {
        (
            self.scrubber_sweeps,
            self.ecc_single_bit_corrections,
            self.pages_quarantined,
            self.pages_relocated,
            self.critical_tmr_ops,
            self.tmr_voter_corrections,
        )
    }

    /// Flips bit `bit_index` of word `offset` of frame `frame_index` and
    /// logs the injection.
    pub fn inject_memory_flip(&mut self, frame_index: usize, offset: usize, bit_index: u8) -> (r: Result<
        (),
        &'static str,
    >)
        requires
            old(self).wf(),
        ensures
            final(self).wf(),
            flip_outcome(old(self).allocator, final(self).allocator, frame_index, offset, bit_index, r),
            final(self).vfs == old(self).vfs,
            final(self).counters() == old(self).counters(),
            final(self).dispatcher.processes == old(self).dispatcher.processes,
            r is Ok ==> final(self).dispatcher.logs() == log_after(
                old(self).dispatcher.logs(),
                flip_msg(bit_index, frame_index, offset),
            ),
            r is Err ==> final(self).dispatcher == old(self).dispatcher,
    {
        self.allocator.inject_bit_flip(frame_index, offset, bit_index)?;
        let msg = String::from_str("INJECTOR: Flipped bit ").concat(fmt_dec(bit_index as usize).as_str()).concat(
            " at frame ",
        ).concat(fmt_dec(frame_index).as_str()).concat(", offset ").concat(fmt_dec(offset).as_str());
        proof {
            assert(msg@ =~= flip_msg(bit_index, frame_index, offset));
        }
        self.dispatcher.log_event(msg.as_str());
        Ok(())
    }

    /// Adds a sweep's repairs and relocations to the counters and logs one
    /// line for each.
    fn update_metrics_from_scrub(&mut self, report: ScrubReport)
        requires
            old(self).ecc_single_bit_corrections + report.corrections@.len() <= usize::MAX,
            old(self).pages_quarantined + report.relocations@.len() <= usize::MAX,
            old(self).pages_relocated + report.relocations@.len() <= usize::MAX,
        ensures
            final(self).allocator == old(self).allocator,
            final(self).vfs == old(self).vfs,
            final(self).dispatcher.processes == old(self).dispatcher.processes,
            final(self).dispatcher.logs() == log_all(old(self).dispatcher.logs(), scrub_msgs(report)),
            final(self).scrubber_sweeps == old(self).scrubber_sweeps,
            final(self).ecc_single_bit_corrections == old(self).ecc_single_bit_corrections
                + report.corrections@.len(),
            final(self).pages_quarantined == old(self).pages_quarantined + report.relocations@.len(),
            final(self).pages_relocated == old(self).pages_relocated + report.relocations@.len(),
            final(self).critical_tmr_ops == old(self).critical_tmr_ops,
            final(self).tmr_voter_corrections == old(self).tmr_voter_corrections,
    {
        let ghost logs0 = self.dispatcher.logs();
        let ghost fixes = report.corrections@.map_values(|e: CorrectionEvent| scrub_fix_msg(e));
        let ghost moves = report.relocations@.map_values(|p: (usize, usize)| scrub_move_msg(p.0, p.1));
        if report.corrections.len() > 0 {
            self.ecc_single_bit_corrections = self.ecc_single_bit_corrections + report.corrections.len();
        }
        let mut q: usize = 0;
        while q < report.corrections.len()
            invariant
                q <= report.corrections@.len(),
                self.allocator == old(self).allocator,
                self.vfs == old(self).vfs,
                self.counters() == (
                    old(self).scrubber_sweeps,
                    (old(self).ecc_single_bit_corrections + report.corrections@.len()) as usize,
                    old(self).pages_quarantined,
                    old(self).pages_relocated,
                    old(self).critical_tmr_ops,
                    old(self).tmr_voter_corrections,
                ),
                fixes == report.corrections@.map_values(|e: CorrectionEvent| scrub_fix_msg(e)),
                self.dispatcher.processes == old(self).dispatcher.processes,
                self.dispatcher.logs() == log_all(logs0, fixes.subrange(0, q as int)),
            decreases report.corrections@.len() - q,
        {
            let corr = report.corrections[q];
            let msg = String::from_str("SCRUBBER DETECT: Corrected single-bit flip on frame ").concat(
                fmt_dec(corr.frame_index).as_str(),
            ).concat(", offset ").concat(fmt_dec(corr.offset).as_str());
            proof {
                assert(msg@ =~= scrub_fix_msg(corr));
                assert(fixes.subrange(0, q + 1).drop_last() =~= fixes.subrange(0, q as int));
            }
            self.dispatcher.log_event(msg.as_str());
            q = q + 1;
        }
        assert(fixes.subrange(0, fixes.len() as int) =~= fixes);
        if report.relocations.len() > 0 {
            self.pages_quarantined = self.pages_quarantined + report.relocations.len();
            self.pages_relocated = self.pages_relocated + report.relocations.len();
        }
        let mut t: usize = 0;
        while t < report.relocations.len()
            invariant
                t <= report.relocations@.len(),
                self.allocator == old(self).allocator,
                self.vfs == old(self).vfs,
                self.counters() == (
                    old(self).scrubber_sweeps,
                    (old(self).ecc_single_bit_corrections + report.corrections@.len()) as usize,
                    (old(self).pages_quarantined + report.relocations@.len()) as usize,
                    (old(self).pages_relocated + report.relocations@.len()) as usize,
                    old(self).critical_tmr_ops,
                    old(self).tmr_voter_corrections,
                ),
                fixes == report.corrections@.map_values(|e: CorrectionEvent| scrub_fix_msg(e)),
                moves == report.relocations@.map_values(|p: (usize, usize)| scrub_move_msg(p.0, p.1)),
                self.dispatcher.processes == old(self).dispatcher.processes,
                self.dispatcher.logs() == log_all(logs0, fixes + moves.subrange(0, t as int)),
            decreases report.relocations@.len() - t,
        {
            let (damaged, fresh) = report.relocations[t];
            let msg = String::from_str("SCRUBBER SEVERE: Quarantine triggered! Hot-swapped damaged frame ").concat(
                fmt_dec(damaged).as_str(),
            ).concat(" to fresh frame ").concat(fmt_dec(fresh).as_str());
            proof {
                assert(msg@ =~= scrub_move_msg(damaged, fresh));
                assert((fixes + moves.subrange(0, t + 1)).drop_last() =~= fixes + moves.subrange(0, t as int));
                assert((fixes + moves.subrange(0, t + 1)).last() == moves[t as int]);
            }
            self.dispatcher.log_event(msg.as_str());
            t = t + 1;
        }
        assert(moves.subrange(0, moves.len() as int) =~= moves);
        assert(fixes + moves =~= scrub_msgs(report));
    }

    /// Runs the navigation computation (three times the orbital speed) on
    /// three redundant runners; every fifth run simulates a register fault
    /// in the second runner, which the voter outvotes.
    fn execute_orbital_calculation(&mut self)
        requires
            old(self).critical_tmr_ops < usize::MAX,
            old(self).tmr_voter_corrections < usize::MAX,
        ensures
            final(self).allocator == old(self).allocator,
            final(self).vfs == old(self).vfs,
            final(self).dispatcher.processes == old(self).dispatcher.processes,
            final(self).scrubber_sweeps == old(self).scrubber_sweeps,
            final(self).ecc_single_bit_corrections == old(self).ecc_single_bit_corrections,
            final(self).pages_quarantined == old(self).pages_quarantined,
            final(self).pages_relocated == old(self).pages_relocated,
            final(self).critical_tmr_ops == old(self).critical_tmr_ops + 1,
            final(self).tmr_voter_corrections == old(self).tmr_voter_corrections + if faulty_run(
                old(self).critical_tmr_ops + 1,
            ) {
                1int
            } else {
                0int
            },
            exists|m: Seq<char>|
                final(self).dispatcher.logs() == log_after(
                    log_after(old(self).dispatcher.logs(), tmr_active_msg(ORBITAL_TASK@)),
                    m,
                ) && (!faulty_run(old(self).critical_tmr_ops + 1) ==> m == tmr_success_msg(ORBITAL_TASK@)),
    {
        self.critical_tmr_ops = self.critical_tmr_ops + 1;
        let velocity: i32 = 7500;
        let should_simulate_alu_flip = self.critical_tmr_ops % 5 == 0;
        let task = |runner_idx: usize| -> (v: i32)
            ensures
                v == if should_simulate_alu_flip && runner_idx == 1 {
                    22468i32
                } else {
                    22500i32
                },
            {
                let mut val: i32 = velocity * 3;
                if should_simulate_alu_flip && runner_idx == 1 {
                    assert(22500i32 ^ (1i32 << 5i32) == 22468i32) by (bit_vector);
                    val = val ^ (1i32 << 5i32);
                }
                val
            };
        let ghost logs0 = self.dispatcher.logs();
        let result = self.dispatcher.execute_critical_tmr(ORBITAL_TASK, task);
        if should_simulate_alu_flip {
            self.tmr_voter_corrections = self.tmr_voter_corrections + 1;
        }
        proof {
            let (r0, r1, r2, res) = choose|r0: i32, r1: i32, r2: i32, res: TmrResult<i32>|
                {
                    &&& task.ensures((0usize,), r0)
                    &&& task.ensures((1usize,), r1)
                    &&& task.ensures((2usize,), r2)
                    &&& vote_outcome(res, r0, r1, r2)
                    &&& result == res.value
                    &&& res.status is Perfect ==> self.dispatcher.logs() == log_after(
                        log_after(logs0, tmr_active_msg(ORBITAL_TASK@)),
                        tmr_success_msg(ORBITAL_TASK@),
                    )
                    &&& res.status is Failed ==> self.dispatcher.logs() == log_after(
                        log_after(logs0, tmr_active_msg(ORBITAL_TASK@)),
                        crate::dispatcher::tmr_failure_msg(ORBITAL_TASK@),
                    )
                    &&& res.status is Corrected ==> exists|m: Seq<char>|
                        self.dispatcher.logs() == log_after(
                            log_after(logs0, tmr_active_msg(ORBITAL_TASK@)),
                            m,
                        )
                };
            if !should_simulate_alu_flip {
                assert(res.status is Perfect);
                assert(self.dispatcher.logs() == log_after(
                    log_after(logs0, tmr_active_msg(ORBITAL_TASK@)),
                    tmr_success_msg(ORBITAL_TASK@),
                ));
            } else {
                assert(r0 == r2 && r0 != r1);
                assert(res.status is Corrected);
            }
        }
    }
}

impl SystemCore {
    /// The states one tick passes through: every process is stepped in
    /// table order (leaving `d1`, `a1`), a sweep turns `a1` into `a2` with
    /// `report`, the counters take the report in, its lines are logged, and
    /// the navigation computation runs redundantly.
    pub open spec fn tick_stages(
        &self,
        d1: TaskDispatcher,
        a1: MemoryAllocator,
        a2: MemoryAllocator,
        report: ScrubReport,
        after: Self,
    ) -> bool {
        &&& steps_done(self.dispatcher, self.allocator, pids_of(self.dispatcher.processes@), d1, a1)
        &&& sweep_outcome(a1, a2, report)
        &&& after.allocator == a2
        &&& after.vfs == self.vfs
        &&& after.dispatcher.processes == d1.processes
        &&& after.scrubber_sweeps == self.scrubber_sweeps + 1
        &&& after.ecc_single_bit_corrections == self.ecc_single_bit_corrections + report.corrections@.len()
        &&& after.pages_quarantined == self.pages_quarantined + report.relocations@.len()
        &&& after.pages_relocated == self.pages_relocated + report.relocations@.len()
        &&& after.critical_tmr_ops == self.critical_tmr_ops + 1
        &&& after.tmr_voter_corrections == self.tmr_voter_corrections + if faulty_run(
            self.critical_tmr_ops + 1,
        ) {
            1int
        } else {
            0int
        }
        &&& exists|m: Seq<char>|
            after.dispatcher.logs() == log_after(
                log_after(log_all(d1.logs(), scrub_msgs(report)), tmr_active_msg(ORBITAL_TASK@)),
                m,
            ) && (!faulty_run(self.critical_tmr_ops + 1) ==> m == tmr_success_msg(ORBITAL_TASK@))
    }

    /// A tick cannot overflow: the counters have room and every step
    /// counter can advance once per process.
    pub open spec fn tick_fits(&self) -> bool {
        &&& self.scrubber_sweeps < usize::MAX
        &&& self.critical_tmr_ops < usize::MAX
        &&& self.tmr_voter_corrections < usize::MAX
        &&& self.ecc_single_bit_corrections + TOTAL_PAGES * PAGE_SIZE <= usize::MAX
        &&& self.pages_quarantined + TOTAL_PAGES <= usize::MAX
        &&& self.pages_relocated + TOTAL_PAGES <= usize::MAX
        &&& forall|i: int|
            0 <= i < self.dispatcher.processes@.len() ==> (
            #[trigger] self.dispatcher.processes@[i].instruction_step + self.dispatcher.processes@.len())
                * 17 <= usize::MAX
    }

    /// Advances the kernel by one tick: steps every process, sweeps memory,
    /// records the sweep and runs the navigation computation redundantly.
    pub fn tick(&mut self)
        requires
            old(self).wf(),
            old(self).tick_fits(),
        ensures
            final(self).wf(),
            exists|d1: TaskDispatcher, a1: MemoryAllocator, a2: MemoryAllocator, report: ScrubReport|
                #[trigger] old(self).tick_stages(d1, a1, a2, report, *final(self)),
    {
        let ghost d0 = self.dispatcher;
        let ghost a0 = self.allocator;
        let n = self.dispatcher.processes.len();
        let mut pids: Vec<u32> = Vec::new();
        let mut k: usize = 0;
        while k < n
            invariant
                n == self.dispatcher.processes@.len(),
                self.dispatcher == d0,
                k <= n,
                pids@ == pids_of(d0.processes@).subrange(0, k as int),
            decreases n - k,
        {
            pids.push(self.dispatcher.processes[k].pid);
            proof {
                assert(pids@ =~= pids_of(d0.processes@).subrange(0, k + 1));
            }
            k = k + 1;
        }
        assert(pids@ =~= pids_of(d0.processes@));
        let mut t: usize = 0;
        assert(pids@.subrange(0, 0) =~= Seq::<u32>::empty());
        while t < n
            invariant
                self.allocator.wf(),
                self.dispatcher.pages_in_range(),
                self.vfs == old(self).vfs,
                self.counters() == old(self).counters(),
                d0 == old(self).dispatcher,
                a0 == old(self).allocator,
                pids@ == pids_of(d0.processes@),
                n == d0.processes@.len(),
                t <= n,
                self.dispatcher.processes@.len() == n,
                forall|i: int|
                    0 <= i < n ==> (#[trigger] self.dispatcher.processes@[i].instruction_step + (n - t)) * 17
                        <= usize::MAX,
                steps_done(d0, a0, pids@.subrange(0, t as int), self.dispatcher, self.allocator),
            decreases n - t,
        {
            let pid = pids[t];
            let ghost dm = self.dispatcher;
            let ghost am = self.allocator;
            proof {
                assert forall|i: int| has_pid_at(dm.processes@, pid, i) implies (
                dm.processes@[i].instruction_step + 1) * 17 <= usize::MAX by {
                    assert((dm.processes@[i].instruction_step + (n - t)) * 17 <= usize::MAX);
                }
            }
            let r = self.dispatcher.execute_step(pid, &mut self.allocator);
            proof {
                if exists|j: int| has_pid_at(dm.processes@, pid, j) {
                    let j = choose|j: int| has_pid_at(dm.processes@, pid, j);
                    assert(step_outcome(dm, self.dispatcher, am, self.allocator, j, r));
                    assert forall|i: int| 0 <= i < n implies (#[trigger] self.dispatcher.processes@[i].instruction_step
                        + (n - (t + 1))) * 17 <= usize::MAX by {
                        assert((dm.processes@[i].instruction_step + (n - t)) * 17 <= usize::MAX);
                        if i != j {
                            assert(self.dispatcher.processes@[i] == dm.processes@[i]);
                        }
                    }
                } else {
                    assert forall|j: int| 0 <= j < dm.processes@.len() implies dm.processes@[j].pid != pid by {
                        if dm.processes@[j].pid == pid {
                            lemma_first_pid(dm.processes@, pid, j);
                        }
                    }
                    assert forall|i: int| 0 <= i < n implies (#[trigger] self.dispatcher.processes@[i].instruction_step
                        + (n - (t + 1))) * 17 <= usize::MAX by {
                        assert((dm.processes@[i].instruction_step + (n - t)) * 17 <= usize::MAX);
                    }
                }
                assert(pids@.subrange(0, t + 1).drop_last() =~= pids@.subrange(0, t as int));
                assert(execute_step_outcome(dm, self.dispatcher, am, self.allocator, pid, r));
                assert(pids@.subrange(0, t + 1).last() == pid);
                assert(steps_done(d0, a0, pids@.subrange(0, t + 1).drop_last(), dm, am));
                assert(steps_done(d0, a0, pids@.subrange(0, t + 1), self.dispatcher, self.allocator));
            }
            t = t + 1;
        }
        assert(pids@.subrange(0, n as int) =~= pids@);
        let ghost d1 = self.dispatcher;
        let ghost a1 = self.allocator;
        self.scrubber_sweeps = self.scrubber_sweeps + 1;
        let report: ScrubReport = MemoryScrubber::sweep(&mut self.allocator);
        let ghost rep = report;
        let ghost a2 = self.allocator;
        proof {
            lemma_active_below_len(a1, TOTAL_PAGES as int);
        }
        self.update_metrics_from_scrub(report);
        self.execute_orbital_calculation();
        assert(old(self).tick_stages(d1, a1, a2, rep, *self));
    }
}

/// Contents of the boot configuration file.
pub const KERNEL_CONF: &'static str = "[kernel]\nversion=1.0.0\nzero_unsafe=true\nsecurity=tmr_ecc\n";

/// Contents of the boot log file.
pub const SYSTEM_INFO: &'static str = "2026-05-27: AE-Rustanium booted successfully.\n2026-05-27: 64 page frames allocated. SECDED ECC active.\n2026-05-27: Background scrubber sweep running.\n";

/// The boot files are ASCII, one and three pages long.
proof fn lemma_boot_texts()
    ensures
        KERNEL_CONF.spec_bytes() =~= Seq::new(KERNEL_CONF@.len(), |i: int| KERNEL_CONF@[i] as u8),
        KERNEL_CONF@.len() <= PAGE_SIZE,
        SYSTEM_INFO.spec_bytes() =~= Seq::new(SYSTEM_INFO@.len(), |i: int| SYSTEM_INFO@[i] as u8),
        2 * PAGE_SIZE < SYSTEM_INFO@.len() <= 3 * PAGE_SIZE,
{
    reveal_strlit("[kernel]\nversion=1.0.0\nzero_unsafe=true\nsecurity=tmr_ecc\n");
    reveal_strlit("2026-05-27: AE-Rustanium booted successfully.\n2026-05-27: 64 page frames allocated. SECDED ECC active.\n2026-05-27: Background scrubber sweep running.\n");
    assert(is_ascii(KERNEL_CONF));
    assert(is_ascii(SYSTEM_INFO));
    is_ascii_spec_bytes(KERNEL_CONF);
    is_ascii_spec_bytes(SYSTEM_INFO);
}

/// A property that holds on `[lo, n)` holds at `n - lo` indices below `n`.
proof fn lemma_count_all(p: spec_fn(int) -> bool, n: int, lo: int)
    requires
        0 <= lo,
        forall|j: int| lo <= j < n ==> #[trigger] p(j),
    ensures
        count_true(p, n) >= n - lo,
    decreases n,
{
    if n > lo {
        lemma_count_all(p, n - 1, lo);
    }
}

/// A property that holds on `[lo, n)` except perhaps at `x` holds at no
/// fewer than `n - lo - 1` indices below `n`.
proof fn lemma_count_but_one(p: spec_fn(int) -> bool, n: int, lo: int, x: int)
    requires
        0 <= lo,
        forall|j: int| lo <= j < n && j != x ==> #[trigger] p(j),
    ensures
        count_true(p, n) + 1 >= n - lo,
    decreases n,
{
    if n > lo {
        if n - 1 == x {
            lemma_count_all(p, n - 1, lo);
        } else {
            lemma_count_but_one(p, n - 1, lo, x);
        }
    }
}

/// With every frame from 3 up free but perhaps `x`, an empty file has room
/// for sixty pages.
proof fn lemma_boot_room(a: MemoryAllocator, blocks: Seq<usize>, x: int)
    requires
        blocks.len() == 0,
        forall|j: int| 3 <= j < TOTAL_PAGES && j != x ==> #[trigger] a.is_free(j),
    ensures
        count_true(|j: int| free_after_release(a, blocks, j), TOTAL_PAGES as int) >= 60,
{
    let p = |j: int| free_after_release(a, blocks, j);
    assert forall|j: int| 3 <= j < TOTAL_PAGES && j != x implies #[trigger] p(j) by {
        assert(a.is_free(j));
        assert(!in_blocks(blocks, j));
    }
    lemma_count_but_one(p, TOTAL_PAGES as int, 3, x);
}

/// Entry `j` of `entries` is called `name` and names inode `i`.
pub open spec fn entry_is(entries: Seq<(String, usize)>, j: int, name: Seq<char>, i: usize) -> bool {
    0 <= j < entries.len() && entries[j].0@ == name && entries[j].1 == i
}

/// The file tree that boot lays down: the root holds `system`, `data` and
/// `bin` (inodes 1 to 3), `system` holds the file `kernel.conf` (inode 4),
/// `data` holds the file `system_info.log` (inode 5), and `bin` is empty.
pub open spec fn boot_shape(v: VirtualFileSystem) -> bool {
    &&& v.inodes@.len() == 6
    &&& v.inodes@[0].inode_type matches InodeType::Directory { entries: e } && e@.len() == 3
        && entry_is(e@, 0, "system"@, 1) && entry_is(e@, 1, "data"@, 2) && entry_is(e@, 2, "bin"@, 3)
    &&& v.inodes@[1].inode_type matches InodeType::Directory { entries: e } && e@.len() == 1
        && entry_is(e@, 0, "kernel.conf"@, 4)
    &&& v.inodes@[2].inode_type matches InodeType::Directory { entries: e } && e@.len() == 1
        && entry_is(e@, 0, "system_info.log"@, 5)
    &&& is_empty_dir(v.inodes@[3].inode_type)
    &&& v.inodes@[4].inode_type is File && v.inodes@[4].name@ == "kernel.conf"@
    &&& v.inodes@[5].inode_type is File && v.inodes@[5].name@ == "system_info.log"@
}

/// Where the boot paths lead.
pub open spec fn boot_paths(v: VirtualFileSystem) -> bool {
    &&& v.resolve_spec("/"@) == Ok::<usize, &'static str>(0)
    &&& v.resolve_spec("/system"@) == Ok::<usize, &'static str>(1)
    &&& v.resolve_spec("/data"@) == Ok::<usize, &'static str>(2)
    &&& v.resolve_spec("/bin"@) == Ok::<usize, &'static str>(3)
    &&& v.resolve_spec("/system/kernel.conf"@) == Ok::<usize, &'static str>(4)
    &&& v.resolve_spec("/data/system_info.log"@) == Ok::<usize, &'static str>(5)
}

/// The components of the boot paths.
proof fn lemma_boot_components()
    ensures
        components("/"@) == Seq::<Seq<char>>::empty(),
        components("/system"@) == seq!["system"@],
        components("/data"@) == seq!["data"@],
        components("/bin"@) == seq!["bin"@],
        components("/system/kernel.conf"@) == seq!["system"@, "kernel.conf"@],
        components("/data/system_info.log"@) == seq!["data"@, "system_info.log"@],
{
    reveal_strlit("/");
    reveal_strlit("/system");
    reveal_strlit("/data");
    reveal_strlit("/bin");
    reveal_strlit("/system/kernel.conf");
    reveal_strlit("/data/system_info.log");
    reveal_strlit("system");
    reveal_strlit("data");
    reveal_strlit("bin");
    reveal_strlit("kernel.conf");
    reveal_strlit("system_info.log");
    let e = Seq::<char>::empty();
    assert(crate::vfs::split_state(e) == (Seq::<Seq<char>>::empty(), e));
    assert("/"@ =~= e.push('/'));
    assert(e.push('/').drop_last() =~= e);
    assert(components("/"@) =~= Seq::<Seq<char>>::empty());
    lemma_components_child(e, "system"@);
    assert("/system"@ =~= e.push('/') + "system"@);
    lemma_components_child(e, "data"@);
    assert("/data"@ =~= e.push('/') + "data"@);
    lemma_components_child(e, "bin"@);
    assert("/bin"@ =~= e.push('/') + "bin"@);
    lemma_components_child("/system"@, "kernel.conf"@);
    assert("/system/kernel.conf"@ =~= "/system"@.push('/') + "kernel.conf"@);
    lemma_components_child("/data"@, "system_info.log"@);
    assert("/data/system_info.log"@ =~= "/data"@.push('/') + "system_info.log"@);
    assert(components(e) =~= Seq::<Seq<char>>::empty());
}

/// A walk of one component is one step from the root.
proof fn lemma_walk1(v: VirtualFileSystem, a: Seq<char>)
    ensures
        v.walk(seq![a]) == v.step(0, a),
{
    assert(seq![a].drop_last() =~= Seq::<Seq<char>>::empty());
    assert(v.walk(Seq::<Seq<char>>::empty()) == Ok::<usize, &'static str>(0));
    assert(seq![a].last() == a);
}

/// A walk of two components is two steps from the root.
proof fn lemma_walk2(v: VirtualFileSystem, a: Seq<char>, b: Seq<char>, i: usize)
    requires
        v.step(0, a) == Ok::<usize, &'static str>(i),
    ensures
        v.walk(seq![a, b]) == v.step(i, b),
{
    lemma_walk1(v, a);
    assert(seq![a, b].drop_last() =~= seq![a]);
    assert(seq![a, b].last() == b);
}

/// The three top-level boot directories have different names.
proof fn lemma_boot_names_differ()
    ensures
        "system"@ != "data"@,
        "system"@ != "bin"@,
        "data"@ != "bin"@,
{
    reveal_strlit("system");
    reveal_strlit("data");
    reveal_strlit("bin");
    assert("system"@[0] != "data"@[0]);
    assert("system"@[0] != "bin"@[0]);
    assert("data"@[0] != "bin"@[0]);
}

/// In the boot tree the boot paths lead to inodes 0 to 5.
pub proof fn lemma_boot_paths(v: VirtualFileSystem)
    requires
        boot_shape(v),
    ensures
        boot_paths(v),
{
    lemma_boot_components();
    lemma_boot_names_differ();
    reveal_strlit("/");
    reveal_strlit("/system");
    reveal_strlit("/data");
    reveal_strlit("/bin");
    reveal_strlit("/system/kernel.conf");
    reveal_strlit("/data/system_info.log");
    reveal_strlit("system");
    reveal_strlit("data");
    reveal_strlit("bin");
    let e0 = v.inodes@[0].inode_type->entries@;
    let e1 = v.inodes@[1].inode_type->entries@;
    let e2 = v.inodes@[2].inode_type->entries@;
    lemma_lookup_at(e0, "system"@, 0);
    assert(e0[0].0@ != "data"@);
    lemma_lookup_at(e0, "data"@, 1);
    assert(e0[1].0@ != "bin"@);
    lemma_lookup_at(e0, "bin"@, 2);
    lemma_lookup_at(e1, "kernel.conf"@, 0);
    lemma_lookup_at(e2, "system_info.log"@, 0);
    let s1 = seq!["system"@];
    let s2 = seq!["data"@];
    let s3 = seq!["bin"@];
    assert(s1.drop_last() =~= Seq::<Seq<char>>::empty());
    assert(s2.drop_last() =~= Seq::<Seq<char>>::empty());
    assert(s3.drop_last() =~= Seq::<Seq<char>>::empty());
    assert(seq!["system"@, "kernel.conf"@].drop_last() =~= s1);
    assert(seq!["data"@, "system_info.log"@].drop_last() =~= s2);
    assert(v.walk(Seq::<Seq<char>>::empty()) == Ok::<usize, &'static str>(0));
    assert(s1.last() == "system"@);
    assert(s2.last() == "data"@);
    assert(s3.last() == "bin"@);
    assert(v.step(0, "system"@) == Ok::<usize, &'static str>(1));
    assert(v.step(0, "data"@) == Ok::<usize, &'static str>(2));
    assert(v.step(0, "bin"@) == Ok::<usize, &'static str>(3));
    assert(v.step(1, "kernel.conf"@) == Ok::<usize, &'static str>(4));
    assert(v.step(2, "system_info.log"@) == Ok::<usize, &'static str>(5));
    assert(v.walk(s1) == Ok::<usize, &'static str>(1));
    assert(v.walk(s2) == Ok::<usize, &'static str>(2));
}

impl SystemCore {
    /// Boots the kernel: a fresh allocator, the processes Telemetry (101),
    /// Navigation (102, critical) and LifeSupport (103) on the first three
    /// frames, the directories `/system`, `/data` and `/bin`, and the files
    /// `/system/kernel.conf` and `/data/system_info.log`, holding
    /// `KERNEL_CONF` and `SYSTEM_INFO` in frames of owner 0.
    #[verifier::rlimit(100)]
    #[verifier::spinoff_prover]
    pub fn bootstrap() -> (c: Self)
        ensures
            c.wf(),
            c.counters() == (0usize, 0usize, 0usize, 0usize, 0usize, 0usize),
            c.dispatcher.processes@.len() == 3,
            c.dispatcher.processes@[0].pid == 101 && c.dispatcher.processes@[0].name@ == "Telemetry"@
                && !c.dispatcher.processes@[0].is_critical,
            c.dispatcher.processes@[1].pid == 102 && c.dispatcher.processes@[1].name@ == "Navigation"@
                && c.dispatcher.processes@[1].is_critical,
            c.dispatcher.processes@[2].pid == 103 && c.dispatcher.processes@[2].name@ == "LifeSupport"@
                && !c.dispatcher.processes@[2].is_critical,
            forall|i: int|
                0 <= i < 3 ==> #[trigger] c.dispatcher.processes@[i].allocated_pages@ == seq![i as usize]
                    && c.dispatcher.processes@[i].instruction_step == 0,
            c.dispatcher.logs() == seq![
                "Dispatcher initialized."@,
                spawn_msg("Telemetry"@, 101, 0),
                spawn_msg("Navigation"@, 102, 1),
                spawn_msg("LifeSupport"@, 103, 2),
            ],
            boot_shape(c.vfs),
            boot_paths(c.vfs),
            c.vfs.inodes@[4].inode_type matches InodeType::File { blocks, size }
                && size == KERNEL_CONF.spec_bytes().len()
                && holds_data(c.allocator, blocks@, KERNEL_CONF.spec_bytes(), 0)
                && file_bytes(c.allocator, blocks@, size as nat) == KERNEL_CONF.spec_bytes(),
            c.vfs.inodes@[5].inode_type matches InodeType::File { blocks, size }
                && size == SYSTEM_INFO.spec_bytes().len()
                && holds_data(c.allocator, blocks@, SYSTEM_INFO.spec_bytes(), 0)
                && file_bytes(c.allocator, blocks@, size as nat) == SYSTEM_INFO.spec_bytes(),
    {
        let mut allocator = MemoryAllocator::new();
        let mut dispatcher = TaskDispatcher::new();
        let mut vfs = VirtualFileSystem::new();
        let ghost fresh = allocator;
        let _ = dispatcher.spawn_process(101, "Telemetry", false, &mut allocator);
        let ghost a1 = allocator;
        let _ = dispatcher.spawn_process(102, "Navigation", true, &mut allocator);
        let ghost a2 = allocator;
        let _ = dispatcher.spawn_process(103, "LifeSupport", false, &mut allocator);
        let ghost d3 = dispatcher;
        proof {
            assert(fresh.is_free(0));
            assert(fresh.frames@[1] == a1.frames@[1]);
            assert(a1.is_free(1));
            assert(a2.frames@[2] == fresh.frames@[2]);
            assert(a2.is_free(2));
        }
        proof {
            lemma_boot_components();
            lemma_boot_names_differ();
            reveal_strlit("/");
            reveal_strlit("/system");
            reveal_strlit("/data");
            reveal_strlit("system");
            reveal_strlit("data");
            reveal_strlit("bin");
            reveal_strlit("kernel.conf");
            reveal_strlit("system_info.log");
            reveal_strlit("/system/kernel.conf");
            reveal_strlit("/data/system_info.log");
            assert(vfs.walk(Seq::<Seq<char>>::empty()) == Ok::<usize, &'static str>(0));
        }
        let ghost a3 = allocator;
        proof {
            assert forall|j: int| 3 <= j < TOTAL_PAGES implies #[trigger] a3.is_free(j) by {
                assert(fresh.frames@[j] == a3.frames@[j]);
                assert(fresh.allocation_map@[j] is None);
                assert(a1.allocation_map@[j] == fresh.allocation_map@[j]);
                assert(a2.allocation_map@[j] == a1.allocation_map@[j]);
                assert(a3.allocation_map@[j] == a2.allocation_map@[j]);
            }
            lemma_boot_texts();
            assert(block_count(KERNEL_CONF.spec_bytes().len()) == 1);
            assert(block_count(SYSTEM_INFO.spec_bytes().len()) == 3);
        }
        let ghost v0 = vfs;
        let _ = vfs.mkdir("/", "system");
        let ghost v1 = vfs;
        assert(v1.walk(Seq::<Seq<char>>::empty()) == Ok::<usize, &'static str>(0));
        let _ = vfs.mkdir("/", "data");
        let ghost v2 = vfs;
        proof {
            assert(v2.inodes@[0].inode_type->entries@[0] == v1.inodes@[0].inode_type->entries@[0]);
            assert(v2.walk(Seq::<Seq<char>>::empty()) == Ok::<usize, &'static str>(0));
        }
        let _ = vfs.mkdir("/", "bin");
        let ghost v3 = vfs;
        proof {
            let e = v3.inodes@[0].inode_type->entries@;
            assert(e[0] == v1.inodes@[0].inode_type->entries@[0]);
            assert(e[1] == v2.inodes@[0].inode_type->entries@[1]);
            lemma_lookup_at(e, "system"@, 0);
            lemma_walk1(v3, "system"@);
            assert(v3.inodes@[1] == v1.inodes@[1]);
        }
        if vfs.create_file("/system", "kernel.conf").is_ok() {
            let ghost v4 = vfs;
            proof {
                let e = v4.inodes@[0].inode_type->entries@;
                assert(v4.inodes@[0] == v3.inodes@[0]);
                lemma_lookup_at(e, "system"@, 0);
                lemma_lookup_at(v4.inodes@[1].inode_type->entries@, "kernel.conf"@, 0);
                lemma_walk2(v4, "system"@, "kernel.conf"@, 1);
                lemma_boot_room(a3, v4.inodes@[4].inode_type->blocks@, -1);
            }
            proof {
                assert(v4.step(1, "kernel.conf"@) == Ok::<usize, &'static str>(4));
                assert(v4.resolve_spec("/system/kernel.conf"@) == Ok::<usize, &'static str>(4));
                assert(v4.inodes@[4].inode_type->blocks@.len() == 0);
            }
            let w1 = vfs.write_file("/system/kernel.conf", KERNEL_CONF.as_bytes(), &mut allocator, 0);
            assert(w1 is Ok);
            assert(holds_data(allocator, vfs.inodes@[4].inode_type->blocks@, KERNEL_CONF.spec_bytes(), 0));
        }
        let ghost v5 = vfs;
        let ghost a4 = allocator;
        proof {
            let nb1 = v5.inodes@[4].inode_type->blocks@;
            assert(holds_data(a4, nb1, KERNEL_CONF.spec_bytes(), 0));
            assert forall|j: int| 3 <= j < TOTAL_PAGES && j != nb1[0] implies #[trigger] a4.is_free(j) by {
                assert(!in_blocks(nb1, j));
                assert(a3.is_free(j));
            }
        }
        proof {
            assert(v5.inodes@.len() == 5);
            assert(v5.inodes@[0] == v3.inodes@[0]);
            assert(v5.inodes@[2] == v3.inodes@[2]);
            let e = v5.inodes@[0].inode_type->entries@;
            assert(e[0].0@ != "data"@);
            lemma_lookup_at(e, "data"@, 1);
            lemma_walk1(v5, "data"@);
            assert(v3.inodes@[2] == v2.inodes@[2]);
        }
        if vfs.create_file("/data", "system_info.log").is_ok() {
            let ghost v6 = vfs;
            proof {
                let e = v6.inodes@[0].inode_type->entries@;
                assert(v6.inodes@[0] == v5.inodes@[0]);
                assert(e[0].0@ != "data"@);
                lemma_lookup_at(e, "data"@, 1);
                lemma_lookup_at(v6.inodes@[2].inode_type->entries@, "system_info.log"@, 0);
                lemma_walk2(v6, "data"@, "system_info.log"@, 2);
                assert(v6.inodes@[5].inode_type->blocks@ =~= Seq::<usize>::empty());
                lemma_boot_room(a4, v6.inodes@[5].inode_type->blocks@, v5.inodes@[4].inode_type->blocks@[0] as int);
            }
            proof {
                assert(v6.step(2, "system_info.log"@) == Ok::<usize, &'static str>(5));
                assert(v6.resolve_spec("/data/system_info.log"@) == Ok::<usize, &'static str>(5));
            }
            let w2 = vfs.write_file("/data/system_info.log", SYSTEM_INFO.as_bytes(), &mut allocator, 0);
            assert(w2 is Ok);
            proof {
                let nb1 = v5.inodes@[4].inode_type->blocks@;
                let b6 = v6.inodes@[5].inode_type->blocks@;
                let nb2 = vfs.inodes@[5].inode_type->blocks@;
                assert(holds_data(a4, nb1, KERNEL_CONF.spec_bytes(), 0));
                assert forall|q: int| 0 <= q < nb1.len() implies !in_blocks(nb2, #[trigger] nb1[q] as int) by {
                    if in_blocks(nb2, nb1[q] as int) {
                        let k = choose|k: int| 0 <= k < nb2.len() && #[trigger] nb2[k] == nb1[q] as int;
                        assert(free_after_release(a4, b6, nb2[k] as int));
                        assert(!in_blocks(b6, nb2[k] as int));
                    }
                }
                assert forall|q: int| 0 <= q < nb1.len() implies #[trigger] allocator.frames@[nb1[q] as int]
                    == a4.frames@[nb1[q] as int] && allocator.allocation_map@[nb1[q] as int]
                    == a4.allocation_map@[nb1[q] as int] by {
                    assert(nb1[q] < TOTAL_PAGES);
                    assert(!in_blocks(nb2, nb1[q] as int));
                    assert(!in_blocks(b6, nb1[q] as int));
                    assert(allocator.allocation_map@[nb1[q] as int] == owner_after_release(a4, b6, nb1[q] as int));
                    assert(allocator.frames@[nb1[q] as int] == a4.frames@[nb1[q] as int]);
                }
                assert(holds_data(allocator, nb1, KERNEL_CONF.spec_bytes(), 0));
            }
        }
        proof {
            let v = vfs;
            assert(v.inodes@[0] == v3.inodes@[0]);
            assert(v.inodes@[1] == v5.inodes@[1]);
            assert(v.inodes@[3] == v3.inodes@[3]);
            assert(boot_shape(v));
            lemma_boot_paths(v);
            let nb1 = v.inodes@[4].inode_type->blocks@;
            let nb2 = v.inodes@[5].inode_type->blocks@;
            assert(v.inodes@[4] == v5.inodes@[4]);
            assert(holds_data(allocator, nb1, KERNEL_CONF.spec_bytes(), 0));
            lemma_holds_data_readable(allocator, nb1, KERNEL_CONF.spec_bytes(), 0);
            lemma_holds_data_readable(allocator, nb2, SYSTEM_INFO.spec_bytes(), 0);
        }
        proof {
            assert(d3.logs() =~= seq![
                "Dispatcher initialized."@,
                spawn_msg("Telemetry"@, 101, 0),
                spawn_msg("Navigation"@, 102, 1),
                spawn_msg("LifeSupport"@, 103, 2),
            ]);
        }
        SystemCore {
            allocator,
            dispatcher,
            vfs,
            scrubber_sweeps: 0,
            ecc_single_bit_corrections: 0,
            pages_quarantined: 0,
            pages_relocated: 0,
            critical_tmr_ops: 0,
            tmr_voter_corrections: 0,
        }
    }
}


/// The working page of every process that holds one, in process order.
pub open spec fn working_frames_of(ps: Seq<KernelProcess>) -> Seq<usize>
    decreases ps.len(),
{
    if ps.len() == 0 {
        Seq::empty()
    } else {
        let rest = working_frames_of(ps.drop_last());
        if ps.last().allocated_pages@.len() > 0 {
            rest.push(ps.last().allocated_pages@[0])
        } else {
            rest
        }
    }
}

/// Log line of an injection that found no working page.
pub open spec fn inject_fail_msg() -> Seq<char> {
    "INJECTOR FAIL: No allocated memory frames found."@
}

/// Log line of an injected double flip.
pub open spec fn double_flip_msg(frame: usize, offset: usize) -> Seq<char> {
    "INJECTOR DOUBLE: Injected double-bit error at frame "@ + dec(frame as nat) + ", offset "@ + dec(
        offset as nat,
    )
}

impl SystemCore {
    /// The working page of every process that holds one.
    pub fn working_frames(&self) -> (frames: Vec<usize>)
        ensures
            frames@ == working_frames_of(self.dispatcher.processes@),
    {
        let mut frames: Vec<usize> = Vec::new();
        let n = self.dispatcher.processes.len();
        let mut i: usize = 0;
        while i < n
            invariant
                n == self.dispatcher.processes@.len(),
                i <= n,
                frames@ == working_frames_of(self.dispatcher.processes@.subrange(0, i as int)),
            decreases n - i,
        {
            let ghost ps = self.dispatcher.processes@;
            assert(ps.subrange(0, i + 1).drop_last() =~= ps.subrange(0, i as int));
            if self.dispatcher.processes[i].allocated_pages.len() > 0 {
                frames.push(self.dispatcher.processes[i].allocated_pages[0]);
            }
            i = i + 1;
        }
        assert(self.dispatcher.processes@.subrange(0, n as int) =~= self.dispatcher.processes@);
        frames
    }

    /// Flips a bit chosen by `seed` in the working page of a process chosen
    /// by `seed`: frame `seed mod` the number of working pages, word
    /// `seed mod PAGE_SIZE`, bit `seed mod 16`; with no working page the
    /// failure is logged and `None` returned.
    pub fn inject_random_flip(&mut self, seed: usize) -> (r: Option<Result<(), &'static str>>)
        requires
            old(self).wf(),
        ensures
            final(self).wf(),
            ({
                let frames = working_frames_of(old(self).dispatcher.processes@);
                if frames.len() == 0 {
                    &&& r is None
                    &&& final(self).allocator == old(self).allocator
                    &&& final(self).dispatcher.processes == old(self).dispatcher.processes
                    &&& final(self).dispatcher.logs() == log_after(old(self).dispatcher.logs(), inject_fail_msg())
                } else {
                    let f = frames[(seed as int) % (frames.len() as int)];
                    let o = (seed % PAGE_SIZE) as usize;
                    let b = (seed % 16) as u8;
                    &&& r matches Some(res) && flip_outcome(old(self).allocator, final(self).allocator, f, o, b, res)
                    &&& final(self).dispatcher.processes == old(self).dispatcher.processes
                    &&& res_logged(old(self).dispatcher.logs(), final(self).dispatcher.logs(), b, f, o, r)
                }
            }),
            final(self).vfs == old(self).vfs,
            final(self).counters() == old(self).counters(),
    {
        let frames = self.working_frames();
        if frames.len() == 0 {
            proof {
                reveal_strlit("INJECTOR FAIL: No allocated memory frames found.");
            }
            self.dispatcher.log_event("INJECTOR FAIL: No allocated memory frames found.");
            return None;
        }
        let f = frames[seed % frames.len()];
        let res = self.inject_memory_flip(f, seed % PAGE_SIZE, (seed % 16) as u8);
        Some(res)
    }

    /// Flips bits 1 and 5 of a word chosen by `seed` in the working page of
    /// a process chosen by `seed`, which no single-bit repair can undo, and
    /// logs it; with no working page the failure is logged.
    pub fn inject_random_double_flip(&mut self, seed: usize) -> (done: bool)
        requires
            old(self).wf(),
        ensures
            final(self).wf(),
            ({
                let frames = working_frames_of(old(self).dispatcher.processes@);
                if frames.len() == 0 {
                    &&& !done
                    &&& final(self).allocator == old(self).allocator
                    &&& final(self).dispatcher.logs() == log_after(old(self).dispatcher.logs(), inject_fail_msg())
                } else {
                    let f = frames[(seed as int) % (frames.len() as int)];
                    let o = (seed % PAGE_SIZE) as usize;
                    &&& done
                    &&& exists|am: MemoryAllocator, r1: Result<(), &'static str>, r2: Result<(), &'static str>|
                        flip_outcome(old(self).allocator, am, f, o, 1, r1) && flip_outcome(
                            am,
                            final(self).allocator,
                            f,
                            o,
                            5,
                            r2,
                        )
                    &&& final(self).dispatcher.logs() == log_after(
                        old(self).dispatcher.logs(),
                        double_flip_msg(f, o),
                    )
                }
            }),
            final(self).dispatcher.processes == old(self).dispatcher.processes,
            final(self).vfs == old(self).vfs,
            final(self).counters() == old(self).counters(),
    {
        let frames = self.working_frames();
        if frames.len() == 0 {
            proof {
                reveal_strlit("INJECTOR FAIL: No allocated memory frames found.");
            }
            self.dispatcher.log_event("INJECTOR FAIL: No allocated memory frames found.");
            return false;
        }
        let f = frames[seed % frames.len()];
        let offset = seed % PAGE_SIZE;
        let ghost a0 = self.allocator;
        let r1 = self.allocator.inject_bit_flip(f, offset, 1);
        let ghost am = self.allocator;
        let r2 = self.allocator.inject_bit_flip(f, offset, 5);
        let msg = String::from_str("INJECTOR DOUBLE: Injected double-bit error at frame ").concat(
            fmt_dec(f).as_str(),
        ).concat(", offset ").concat(fmt_dec(offset).as_str());
        proof {
            assert(msg@ =~= double_flip_msg(f, offset));
        }
        self.dispatcher.log_event(msg.as_str());
        proof {
            assert(flip_outcome(a0, am, f, offset, 1, r1));
            assert(flip_outcome(am, self.allocator, f, offset, 5, r2));
            assert(seed % PAGE_SIZE == (seed % PAGE_SIZE) as usize);
        }
        true
    }
}

/// The log after a random flip: the flip's line when it took place.
pub open spec fn res_logged(
    before: Seq<Seq<char>>,
    after: Seq<Seq<char>>,
    b: u8,
    f: usize,
    o: usize,
    r: Option<Result<(), &'static str>>,
) -> bool {
    match r {
        Some(Ok(())) => after == log_after(before, flip_msg(b, f, o)),
        _ => after == before,
    }
}

} // verus!
