//! The reference round-robin scheduler.

use tock_core::kernel::Kernel;
use tock_core::platform::SchedulingDecision;
use tock_core::process::Process;
use tock_core::process::ProcessId;
use tock_core::process::State;
use tock_core::platform::ExternalProcessCapability;
use tock_core::sched::RoundRobinScheduler;

struct Cap;

impl ExternalProcessCapability for Cap {}

const FLASH_START: usize = 0x8000_0000;
const RAM_START: usize = 0x2000_0000;

fn make_process(index: usize, id: usize, state: State) -> Process {
    Process::new(index, id, state, FLASH_START, vec![0; 16], vec![], RAM_START, 32)
}

#[test]
fn no_work_means_sleep() {
    // With the work counter at zero the reference scheduler never chooses
    // to run a process.
    let kernel = Kernel::new(vec![
        Some(make_process(0, 1, State::Yielded)),
        Some(make_process(1, 2, State::Terminated)),
    ]);
    assert_eq!(kernel.work_count(), 0);
    let mut sched = RoundRobinScheduler::new(10_000);
    assert_eq!(sched.next_decision(&kernel), SchedulingDecision::TrySleep);
}

#[test]
fn picks_the_ready_process_with_the_fixed_timeslice() {
    let kernel = Kernel::new(vec![
        Some(make_process(0, 1, State::Yielded)),
        Some(make_process(1, 2, State::Running)),
    ]);
    let mut sched = RoundRobinScheduler::new(5_000);
    let d = sched.next_decision(&kernel);
    assert_eq!(
        d,
        SchedulingDecision::RunProcess(ProcessId { index: 1, id: 2 }, Some(5_000))
    );
}

#[test]
fn rotates_between_ready_processes() {
    let kernel = Kernel::new(vec![
        Some(make_process(0, 1, State::Running)),
        Some(make_process(1, 2, State::Running)),
    ]);
    let mut sched = RoundRobinScheduler::new(10_000);
    let first = sched.next_decision(&kernel);
    let second = sched.next_decision(&kernel);
    let third = sched.next_decision(&kernel);
    assert_eq!(
        first,
        SchedulingDecision::RunProcess(ProcessId { index: 0, id: 1 }, Some(10_000))
    );
    assert_eq!(
        second,
        SchedulingDecision::RunProcess(ProcessId { index: 1, id: 2 }, Some(10_000))
    );
    assert_eq!(first, third);
}

#[test]
fn empty_table_sleeps() {
    let mut kernel = Kernel::new(vec![]);
    let mut sched = RoundRobinScheduler::new(10_000);
    assert_eq!(sched.next_decision(&kernel), SchedulingDecision::TrySleep);
    // External work does not make a process runnable, so the scheduler
    // still proposes sleep after scanning the (empty) table.
    kernel.increment_work_external(&Cap);
    assert_eq!(sched.next_decision(&kernel), SchedulingDecision::TrySleep);
}

#[test]
fn sleeps_when_no_loaded_process_is_ready() {
    // Work is outstanding (externally registered), but no loaded process
    // is ready: the full round-robin scan ends in a sleep proposal.
    let mut kernel = Kernel::new(vec![
        Some(make_process(0, 1, State::Yielded)),
        None,
        Some(make_process(2, 3, State::Faulted)),
    ]);
    kernel.increment_work_external(&Cap);
    let mut sched = RoundRobinScheduler::new(10_000);
    assert_eq!(sched.next_decision(&kernel), SchedulingDecision::TrySleep);
}
