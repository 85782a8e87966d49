//! The process model: memory validation, grant storage, and task queues.

use tock_core::process::Process;
use tock_core::process::ProcessId;
use tock_core::process::State;

const FLASH_START: usize = 0x8000_0000;
const RAM_START: usize = 0x2000_0000;

fn make_process() -> Process {
    Process::new(0, 9, State::Running, FLASH_START, vec![0; 0x100], vec![1, 2], RAM_START, 0x80)
}

#[test]
fn new_process_layout() {
    let p = make_process();
    assert_eq!(p.processid(), ProcessId { index: 0, id: 9 });
    assert_eq!(p.get_state(), State::Running);
    assert!(!p.has_tasks());
    assert_eq!(p.task_count(), 0);
    assert_eq!(p.grant_allocated_count(), 0);
    assert!(p.get_syscall_return().is_none());
}

#[test]
fn set_byte_respects_the_accessible_region() {
    let mut p = make_process();
    assert!(p.set_byte(RAM_START + 5, 0x7F));
    assert_eq!(p.read_byte(RAM_START + 5), Some(0x7F));
    // Below and past the accessible region: ignored.
    assert!(!p.set_byte(RAM_START - 1, 1));
    assert!(!p.set_byte(RAM_START + 0x80, 1));
    assert_eq!(p.read_byte(RAM_START + 0x90), None);
}

#[test]
fn upcall_pointer_validation_uses_the_integrity_region() {
    let p = make_process();
    assert!(p.is_valid_upcall_function_pointer(FLASH_START));
    assert!(p.is_valid_upcall_function_pointer(FLASH_START + 0xFF));
    // The footers past the integrity region are not executable.
    assert!(!p.is_valid_upcall_function_pointer(FLASH_START + 0x100));
    assert!(!p.is_valid_upcall_function_pointer(RAM_START));
}

#[test]
fn buffer_validation() {
    let p = make_process();
    // Read-write buffers must lie in accessible RAM; empty buffers always
    // pass.
    assert!(p.rw_buffer_in_bounds(RAM_START, 0x80));
    assert!(p.rw_buffer_in_bounds(0, 0));
    assert!(!p.rw_buffer_in_bounds(RAM_START + 0x70, 0x20));
    assert!(!p.rw_buffer_in_bounds(FLASH_START, 4));
    // Read-only buffers may also lie in flash, footers included.
    assert!(p.ro_buffer_in_bounds(FLASH_START, 0x102));
    assert!(p.ro_buffer_in_bounds(RAM_START + 8, 8));
    assert!(!p.ro_buffer_in_bounds(FLASH_START + 0x100, 3));
}

#[test]
fn grant_region_allocation_and_slots() {
    let mut p = make_process();
    assert!(!p.grant_is_allocated(3));
    assert!(p.get_upcall(3, 0).is_none());
    p.allocate_grant_region(3, 2, 1, 1);
    assert!(p.grant_is_allocated(3));
    assert_eq!(p.grant_allocated_count(), 1);
    // Fresh slots read empty.
    let slot = p.get_upcall(3, 0).unwrap();
    assert_eq!((slot.fn_ptr, slot.appdata), (0, 0));
    // Out-of-range subscribe slots do not exist.
    assert!(p.get_upcall(3, 2).is_none());
    let rw = p.get_allow_rw(3, 0).unwrap();
    assert_eq!((rw.ptr, rw.len), (0, 0));
    assert!(p.get_allow_ro(3, 1).is_none());
}

#[test]
fn readiness_follows_state_and_queue() {
    // Running and admission-pending processes are ready in themselves;
    // the never-schedulable states hold no tasks and are never ready.
    let mut p = make_process();
    assert!(p.ready());
    p.state = State::CredentialsApproved;
    assert!(p.ready());
    p.state = State::Yielded;
    assert!(!p.ready());
    for state in [
        State::Faulted,
        State::Terminated,
        State::CredentialsUnchecked,
        State::CredentialsFailed,
    ] {
        p.state = state;
        assert!(!p.ready());
    }
}
