use rustanium::threads::{Scheduler, ThreadStatus, MAX_THREADS, STACK_SIZE};
use rustanium::allocator::{MemoryAllocator, PageStatus, PAGE_SIZE};
use rustanium::dispatcher::TaskDispatcher;
use rustanium::tmr::{TmrStatus, TmrVoter};

#[test]
fn test_spawn_and_normal_step() {
    let mut allocator = MemoryAllocator::new();
    let mut dispatcher = TaskDispatcher::new();
    let pid = dispatcher.spawn_process(1, "Telemetry", false, &mut allocator).unwrap();
    assert_eq!(pid, 1);
    assert_eq!(dispatcher.processes.len(), 1);
    dispatcher.execute_step(1, &mut allocator).unwrap();
    assert_eq!(dispatcher.processes[0].instruction_step, 1);
}

#[test]
fn test_step_under_double_bit_flip_triggers_hot_swap() {
    let mut allocator = MemoryAllocator::new();
    let mut dispatcher = TaskDispatcher::new();
    let pid = dispatcher.spawn_process(10, "Guidance", false, &mut allocator).unwrap();
    let initial_frame = dispatcher.processes[0].allocated_pages[0];
    dispatcher.execute_step(pid, &mut allocator).unwrap();
    let offset = (1 * 7) % PAGE_SIZE;
    allocator.inject_bit_flip(initial_frame, offset, 0).unwrap();
    allocator.inject_bit_flip(initial_frame, offset, 4).unwrap();
    dispatcher.execute_step(pid, &mut allocator).unwrap();
    let final_frame = dispatcher.processes[0].allocated_pages[0];
    assert_ne!(initial_frame, final_frame);
    assert_eq!(allocator.frames[initial_frame].status, PageStatus::Quarantined);
    assert_eq!(allocator.allocation_map[final_frame], Some(pid));
}

#[test]
fn test_tmr_perfect_match() {
    let res = TmrVoter::vote(42, 42, 42);
    assert_eq!(res.value, Some(42));
    assert_eq!(res.status, TmrStatus::Perfect);
}

#[test]
fn test_tmr_single_divergence_corrected() {
    let res0 = TmrVoter::vote(999, 42, 42);
    assert_eq!(res0.value, Some(42));
    assert!(matches!(res0.status, TmrStatus::Corrected { faulty_runner: 0, .. }));
    let res1 = TmrVoter::vote(42, 999, 42);
    assert_eq!(res1.value, Some(42));
    assert!(matches!(res1.status, TmrStatus::Corrected { faulty_runner: 1, .. }));
    let res2 = TmrVoter::vote(42, 42, 999);
    assert_eq!(res2.value, Some(42));
    assert!(matches!(res2.status, TmrStatus::Corrected { faulty_runner: 2, .. }));
}

#[test]
fn test_tmr_catastrophic_failure() {
    let res = TmrVoter::vote(1, 2, 3);
    assert_eq!(res.value, None);
    assert_eq!(res.status, TmrStatus::Failed);
}

#[test]
fn test_tmr_simulated_computation_flip() {
    let val = 10;
    let res = TmrVoter::execute_redundant(|idx| {
        let mut result = val * 2;
        if idx == 1 {
            result ^= 1 << 3;
        }
        result
    });
    assert_eq!(res.value, Some(20));
    match res.status {
        TmrStatus::Corrected { faulty_runner, .. } => {
            assert_eq!(faulty_runner, 1);
        }
        _ => panic!("Expected corrected status"),
    }
}

#[test]
fn corrected_vote_reports_the_diverging_values() {
    let res = TmrVoter::vote(7u32, 7, 9);
    assert_eq!(
        res.status,
        TmrStatus::Corrected {
            faulty_runner: 2,
            faulty_value: String::from("9"),
            majority_value: String::from("7"),
        }
    );
}

#[test]
fn dispatcher_logs_spawns_and_steps() {
    let mut allocator = MemoryAllocator::new();
    let mut dispatcher = TaskDispatcher::new();
    assert_eq!(dispatcher.event_logs, vec![String::from("Dispatcher initialized.")]);
    dispatcher.spawn_process(5, "Probe", true, &mut allocator).unwrap();
    assert_eq!(
        dispatcher.event_logs[1],
        "SPAWN: Process 'Probe' (PID: 5) spawned on physical page frame 0"
    );
    dispatcher.execute_step(5, &mut allocator).unwrap();
    assert_eq!(
        dispatcher.event_logs[2],
        "EXEC: 'Probe' (PID: 5) writing 0x11 to frame 0, offset 7"
    );
    let (val, _) = allocator.frames[0].read_byte(7).unwrap();
    assert_eq!(val, 0x11);
}

#[test]
fn unknown_pid_and_full_memory_are_reported() {
    let mut allocator = MemoryAllocator::new();
    let mut dispatcher = TaskDispatcher::new();
    assert_eq!(dispatcher.execute_step(77, &mut allocator), Err("Process not found."));
    for i in 0..64 {
        dispatcher.spawn_process(i, "Filler", false, &mut allocator).unwrap();
    }
    assert_eq!(
        dispatcher.spawn_process(500, "Late", false, &mut allocator),
        Err("Out of physical memory frames.")
    );
    assert_eq!(
        dispatcher.event_logs.last().unwrap(),
        "SPAWN FAIL: Out of memory spawning process 'Late'"
    );
}

#[test]
fn event_log_keeps_the_last_hundred_lines() {
    let mut dispatcher = TaskDispatcher::new();
    for i in 0..150 {
        dispatcher.log_event(&format!("line {}", i));
    }
    assert_eq!(dispatcher.event_logs.len(), 100);
    assert_eq!(dispatcher.event_logs[0], "line 50");
    assert_eq!(dispatcher.event_logs[99], "line 149");
}

#[test]
fn spawn_registers_ready_threads_up_to_capacity() {
    let mut s = Scheduler::new();
    s.register_main_thread();
    assert_eq!(s.spawn(vec![0u8; STACK_SIZE], 4096), Ok(1));
    let t = &s.threads[1];
    assert_eq!(t.id, 1);
    assert_eq!(t.status, ThreadStatus::Ready);
    assert_eq!(t.stack.len(), STACK_SIZE);
    // top 4096 + 8192 is aligned; less 8, less the 56-byte register frame
    assert_eq!(t.rsp, 12224);
    assert_eq!(s.spawn(vec![0u8; STACK_SIZE], 4100), Ok(2));
    // 4100 + 8192 = 12292 rounds down to 12288
    assert_eq!(s.threads[2].rsp, 12224);
    assert_eq!(s.spawn(vec![0u8; STACK_SIZE], 100000), Ok(3));
    assert_eq!(s.threads.len(), MAX_THREADS);
    assert_eq!(s.spawn(vec![0u8; STACK_SIZE], 4096), Err("Maximum thread capacity reached!"));
    assert_eq!(s.threads.len(), MAX_THREADS);
}
