//! The kernel object: work accounting, grant registration, process lookup
//! and iteration.

use tock_core::errorcode::ErrorCode;
use tock_core::kernel::Kernel;
use tock_core::platform::ExternalProcessCapability;
use tock_core::platform::MemoryAllocationCapability;
use tock_core::platform::ProcessApprovalCapability;
use tock_core::platform::ProcessManagementCapability;
use tock_core::process::FunctionCall;
use tock_core::process::FunctionCallSource;
use tock_core::process::Process;
use tock_core::process::ProcessId;
use tock_core::process::ShortID;
use tock_core::process::State;
use tock_core::process::Task;

struct TestCap;

impl MemoryAllocationCapability for TestCap {}

impl ProcessManagementCapability for TestCap {}

impl ExternalProcessCapability for TestCap {}

impl ProcessApprovalCapability for TestCap {}

fn make_process(index: usize, id: usize, state: State) -> Process {
    Process::new(
        index,
        id,
        state,
        0x8000_0000,
        vec![0; 64],
        vec![],
        0x2000_0000,
        256,
    )
}

fn two_process_kernel() -> Kernel {
    let p0 = make_process(0, 10, State::Running);
    let p1 = make_process(1, 11, State::Yielded);
    Kernel::new(vec![Some(p0), Some(p1)])
}

fn kernel_task() -> Task {
    Task::FunctionCall(FunctionCall {
        source: FunctionCallSource::Kernel,
        argument0: 0,
        argument1: 0,
        argument2: 0,
        argument3: 0,
        pc: 0x8000_0100,
    })
}

#[test]
fn new_kernel_counts_initial_work() {
    // One Running process counts one unit; a Yielded one with no tasks
    // counts none.
    let kernel = two_process_kernel();
    assert_eq!(kernel.work_count(), 1);
    assert!(!kernel.processes_blocked());
}

#[test]
fn external_work_counters_round_trip() {
    let mut kernel = Kernel::new(vec![]);
    assert!(kernel.processes_blocked());
    kernel.increment_work_external(&TestCap);
    kernel.increment_work_external(&TestCap);
    assert_eq!(kernel.work_count(), 2);
    kernel.decrement_work_external(&TestCap);
    assert_eq!(kernel.work_count(), 1);
    assert!(!kernel.processes_blocked());
}

#[test]
fn processid_validity_requires_matching_generation() {
    let kernel = two_process_kernel();
    assert!(kernel.processid_is_valid(&ProcessId { index: 0, id: 10 }));
    assert!(kernel.processid_is_valid(&ProcessId { index: 1, id: 11 }));
    // Wrong generation, wrong slot, out of range.
    assert!(!kernel.processid_is_valid(&ProcessId { index: 0, id: 11 }));
    assert!(!kernel.processid_is_valid(&ProcessId { index: 1, id: 10 }));
    assert!(!kernel.processid_is_valid(&ProcessId { index: 2, id: 12 }));
}

#[test]
fn get_process_checks_slot_and_generation() {
    let kernel = two_process_kernel();
    let p = kernel.get_process(ProcessId { index: 0, id: 10 }).unwrap();
    assert_eq!(p.processid(), ProcessId { index: 0, id: 10 });
    assert!(kernel.get_process(ProcessId { index: 0, id: 99 }).is_none());
}

#[test]
fn grant_registration_and_finalization() {
    let mut kernel = Kernel::new(vec![]);
    assert!(!kernel.grants_are_finalized());
    let g0 = kernel.create_grant(0x1, 2, 1, 1, &TestCap);
    let g1 = kernel.create_grant(0x2, 1, 0, 0, &TestCap);
    assert_eq!(g0.grant_index, 0);
    assert_eq!(g1.grant_index, 1);
    let count = kernel.get_grant_count_and_finalize();
    assert_eq!(count, 2);
    assert!(kernel.grants_are_finalized());
    // Finalization is one-way; the count stays.
    assert_eq!(kernel.get_grant_count_and_finalize_external(&TestCap), 2);
    assert!(kernel.grants_are_finalized());
}

#[test]
fn enqueue_task_adds_work_for_live_processes_only() {
    let mut kernel = two_process_kernel();
    let before = kernel.work_count();
    assert!(kernel
        .enqueue_task(ProcessId { index: 1, id: 11 }, kernel_task())
        .is_ok());
    assert_eq!(kernel.work_count(), before + 1);
    // A stale identifier is refused.
    assert_eq!(
        kernel.enqueue_task(ProcessId { index: 1, id: 99 }, kernel_task()),
        Err(ErrorCode::NODEVICE)
    );
    // A terminated process accepts no tasks.
    let dead = make_process(0, 5, State::Terminated);
    let mut kernel2 = Kernel::new(vec![Some(dead)]);
    assert_eq!(
        kernel2.enqueue_task(ProcessId { index: 0, id: 5 }, kernel_task()),
        Err(ErrorCode::NODEVICE)
    );
}

#[test]
fn credential_marks_are_one_way() {
    let p = make_process(0, 1, State::CredentialsUnchecked);
    let mut kernel = Kernel::new(vec![Some(p)]);
    assert_eq!(kernel.work_count(), 0);
    assert!(kernel
        .mark_credentials_pass(0, None, ShortID::Fixed(7), &TestCap)
        .is_ok());
    // Approval is pending admission work.
    assert_eq!(kernel.work_count(), 1);
    let p_ref = kernel.process_ref(0).unwrap();
    assert_eq!(p_ref.get_state(), State::CredentialsApproved);
    assert_eq!(p_ref.get_short_id(), ShortID::Fixed(7));
    // Marking twice is refused.
    assert_eq!(
        kernel.mark_credentials_pass(0, None, ShortID::LocallyUnique, &TestCap),
        Err(ErrorCode::ALREADY)
    );
    assert_eq!(kernel.mark_credentials_fail(0, &TestCap), Err(ErrorCode::ALREADY));
}

#[test]
fn hardfault_all_apps_faults_everything() {
    let mut kernel = two_process_kernel();
    kernel.hardfault_all_apps(&TestCap);
    assert_eq!(kernel.work_count(), 0);
    for i in 0..kernel.process_count() {
        let p = kernel.process_ref(i).unwrap();
        assert_eq!(p.get_state(), State::Faulted);
        assert!(!p.has_tasks());
    }
}

#[test]
fn process_map_or_runs_closure_on_valid_process() {
    let kernel = two_process_kernel();
    let id = kernel.process_map_or(0usize, ProcessId { index: 1, id: 11 }, |p| p.processid().id);
    assert_eq!(id, 11);
    let missed = kernel.process_map_or(77usize, ProcessId { index: 1, id: 9 }, |p| p.processid().id);
    assert_eq!(missed, 77);
    let ext = kernel.process_map_or_external(
        0usize,
        ProcessId { index: 0, id: 10 },
        |p| p.processid().id,
        &TestCap,
    );
    assert_eq!(ext, 10);
}

#[test]
fn process_until_stops_at_first_answer() {
    let kernel = two_process_kernel();
    // The first Yielded process is in slot 1.
    let found = kernel.process_until(|p| {
        if p.get_state() == State::Yielded {
            Some(p.processid().index)
        } else {
            None
        }
    });
    assert_eq!(found, Some(1));
    let none = kernel.process_until(|p| {
        if p.get_state() == State::Faulted {
            Some(p.processid().index)
        } else {
            None
        }
    });
    assert_eq!(none, None::<usize>);
}

#[test]
fn process_each_visits_every_loaded_process() {
    let kernel = two_process_kernel();
    // The closures may not capture mutably, so visit through an immutable
    // observation: both processes exist and are distinct.
    kernel.process_each(|p| {
        assert!(p.processid().id == 10 || p.processid().id == 11);
    });
    kernel.process_each_capability(&TestCap, |p| {
        assert!(p.processid().index < 2);
    });
}
