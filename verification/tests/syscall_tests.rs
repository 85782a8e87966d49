//! The system-call handler: yield, subscribe, command, the allows, memop,
//! and exit, with the filter policy in front.

use tock_core::errorcode::ErrorCode;
use tock_core::kernel::Kernel;
use tock_core::platform::DriverTable;
use tock_core::platform::KernelResources;
use tock_core::platform::MemoryAllocationCapability;
use tock_core::platform::SyscallFilter;
use tock_core::process::Process;
use tock_core::process::ProcessId;
use tock_core::process::State;
use tock_core::process::FunctionCall;
use tock_core::process::FunctionCallSource;
use tock_core::process::Task;
use tock_core::process::UpcallId;
use tock_core::syscall::CommandReturn;
use tock_core::syscall::Syscall;
use tock_core::syscall::SyscallReturn;

struct AllocCap;

impl MemoryAllocationCapability for AllocCap {}

/// Filter that admits everything.
struct OpenFilter;

impl SyscallFilter for OpenFilter {
    fn filter_syscall(&mut self, _process: &Process, _syscall: &Syscall) -> Result<(), ErrorCode> {
        Ok(())
    }
}

/// Filter that rejects Command calls on one driver number.
struct CommandBlocker {
    blocked_driver: usize,
}

impl SyscallFilter for CommandBlocker {
    fn filter_syscall(&mut self, _process: &Process, syscall: &Syscall) -> Result<(), ErrorCode> {
        match *syscall {
            Syscall::Command { driver_number, .. } if driver_number == self.blocked_driver => {
                Err(ErrorCode::NOSUPPORT)
            }
            _ => Ok(()),
        }
    }
}

/// A driver table with one driver that consents to grant allocation and
/// answers commands with a fixed value.
struct OneDriver {
    driver_num: usize,
    consent: bool,
}

impl DriverTable for OneDriver {
    fn has_driver(&mut self, driver_num: usize) -> bool {
        driver_num == self.driver_num
    }

    fn command(
        &mut self,
        driver_num: usize,
        subdriver_num: usize,
        arg0: usize,
        _arg1: usize,
        _processid: ProcessId,
    ) -> Option<CommandReturn> {
        if driver_num != self.driver_num {
            return None;
        }
        match subdriver_num {
            0 => Some(CommandReturn::Success),
            1 => Some(CommandReturn::SuccessU32(arg0 as u32 + 1)),
            _ => Some(CommandReturn::Failure(ErrorCode::INVAL)),
        }
    }

    fn allocate_grant(&mut self, driver_num: usize, _processid: ProcessId) -> Option<bool> {
        if driver_num == self.driver_num {
            Some(self.consent)
        } else {
            None
        }
    }

    fn allow_userspace_readable(
        &mut self,
        driver_num: usize,
        _subdriver_num: usize,
        _processid: ProcessId,
        ptr: usize,
        len: usize,
    ) -> Option<Result<(usize, usize), (ErrorCode, usize, usize)>> {
        if driver_num == self.driver_num {
            Some(Ok((ptr.wrapping_add(0), len)))
        } else {
            None
        }
    }
}

type TestResources<F> = KernelResources<(), (), (), F, (), (), OneDriver, ()>;

fn resources<F>(filter: F, consent: bool) -> TestResources<F> {
    KernelResources {
        scheduler: (),
        scheduler_timer: (),
        watchdog: (),
        syscall_filter: filter,
        process_fault: (),
        context_switch_callback: (),
        drivers: OneDriver { driver_num: 0x1, consent },
        ipc: None,
    }
}

const RAM_START: usize = 0x2000_0000;
const FLASH_START: usize = 0x8000_0000;

/// A kernel with one Running process and a registered grant for driver 1.
fn running_kernel() -> Kernel {
    let p = Process::new(0, 42, State::Running, FLASH_START, vec![0; 0x100], vec![], RAM_START, 0x400);
    let mut kernel = Kernel::new(vec![Some(p)]);
    kernel.create_grant(0x1, 2, 2, 2, &AllocCap);
    kernel.get_grant_count_and_finalize();
    kernel
}

fn last_return(kernel: &Kernel) -> SyscallReturn {
    kernel.process_ref(0).unwrap().get_syscall_return().unwrap()
}

#[test]
fn yield_no_wait_with_empty_queue_stays_running() {
    // Yield(which=0) with no queued tasks: flag byte 0 is written and the
    // process keeps running.
    let mut kernel = running_kernel();
    let mut res = resources(OpenFilter, true);
    let addr = RAM_START + 0x100;
    kernel.handle_syscall(&mut res, 0, Syscall::Yield { which: 0, address: addr });
    let p = kernel.process_ref(0).unwrap();
    assert_eq!(p.read_byte(addr), Some(0));
    assert_eq!(p.get_state(), State::Running);
    assert!(p.get_syscall_return().is_none());
}

#[test]
fn yield_wait_parks_the_process() {
    let mut kernel = running_kernel();
    let mut res = resources(OpenFilter, true);
    let addr = RAM_START + 0x10;
    let work_before = kernel.work_count();
    kernel.handle_syscall(&mut res, 0, Syscall::Yield { which: 1, address: addr });
    let p = kernel.process_ref(0).unwrap();
    assert_eq!(p.read_byte(addr), Some(1));
    assert_eq!(p.get_state(), State::Yielded);
    // The Running unit of work was retired.
    assert_eq!(kernel.work_count(), work_before - 1);
}

#[test]
fn yield_invalid_variant_is_a_no_op() {
    let mut kernel = running_kernel();
    let mut res = resources(OpenFilter, true);
    kernel.handle_syscall(&mut res, 0, Syscall::Yield { which: 2, address: RAM_START });
    let p = kernel.process_ref(0).unwrap();
    assert_eq!(p.get_state(), State::Running);
    assert_eq!(p.read_byte(RAM_START), Some(0));
    assert!(p.get_syscall_return().is_none());
}

#[test]
fn yield_ignores_address_outside_memory() {
    let mut kernel = running_kernel();
    let mut res = resources(OpenFilter, true);
    kernel.handle_syscall(&mut res, 0, Syscall::Yield { which: 1, address: 0x4000_0000 });
    let p = kernel.process_ref(0).unwrap();
    assert_eq!(p.get_state(), State::Yielded);
}

#[test]
fn subscribe_swap_returns_previous_descriptor() {
    // First subscribe allocates the grant lazily and reports the null
    // descriptor; the second reports the first one back.
    let mut kernel = running_kernel();
    let mut res = resources(OpenFilter, true);
    kernel.handle_syscall(
        &mut res,
        0,
        Syscall::Subscribe {
            driver_number: 0x1,
            subdriver_number: 0,
            upcall_ptr: FLASH_START + 0x10,
            appdata: 0xAA,
        },
    );
    assert_eq!(last_return(&kernel), SyscallReturn::SubscribeSuccess(0, 0));
    kernel.handle_syscall(
        &mut res,
        0,
        Syscall::Subscribe {
            driver_number: 0x1,
            subdriver_number: 0,
            upcall_ptr: FLASH_START + 0x20,
            appdata: 0xBB,
        },
    );
    assert_eq!(
        last_return(&kernel),
        SyscallReturn::SubscribeSuccess(FLASH_START + 0x10, 0xAA)
    );
    let slot = kernel.process_ref(0).unwrap().get_upcall(0x1, 0).unwrap();
    assert_eq!(slot.fn_ptr, FLASH_START + 0x20);
    assert_eq!(slot.appdata, 0xBB);
}

#[test]
fn subscribe_rejects_pointer_outside_executable_flash() {
    let mut kernel = running_kernel();
    let mut res = resources(OpenFilter, true);
    kernel.handle_syscall(
        &mut res,
        0,
        Syscall::Subscribe {
            driver_number: 0x1,
            subdriver_number: 0,
            upcall_ptr: RAM_START,
            appdata: 0x7,
        },
    );
    assert_eq!(
        last_return(&kernel),
        SyscallReturn::SubscribeFailure(ErrorCode::INVAL, RAM_START, 0x7)
    );
}

#[test]
fn subscribe_null_pointer_unsubscribes() {
    let mut kernel = running_kernel();
    let mut res = resources(OpenFilter, true);
    kernel.handle_syscall(
        &mut res,
        0,
        Syscall::Subscribe {
            driver_number: 0x1,
            subdriver_number: 1,
            upcall_ptr: FLASH_START + 4,
            appdata: 1,
        },
    );
    kernel.handle_syscall(
        &mut res,
        0,
        Syscall::Subscribe { driver_number: 0x1, subdriver_number: 1, upcall_ptr: 0, appdata: 0 },
    );
    assert_eq!(
        last_return(&kernel),
        SyscallReturn::SubscribeSuccess(FLASH_START + 4, 1)
    );
    let slot = kernel.process_ref(0).unwrap().get_upcall(0x1, 1).unwrap();
    assert_eq!(slot.fn_ptr, 0);
}

#[test]
fn subscribe_without_layout_reports_nomem() {
    // Driver 5 exists in no grant registry: allocation cannot happen.
    let p = Process::new(0, 1, State::Running, FLASH_START, vec![0; 64], vec![], RAM_START, 64);
    let mut kernel = Kernel::new(vec![Some(p)]);
    let mut res = resources(OpenFilter, true);
    kernel.handle_syscall(
        &mut res,
        0,
        Syscall::Subscribe {
            driver_number: 0x1,
            subdriver_number: 0,
            upcall_ptr: 0,
            appdata: 0,
        },
    );
    assert_eq!(
        last_return(&kernel),
        SyscallReturn::SubscribeFailure(ErrorCode::NOMEM, 0, 0)
    );
}

#[test]
fn subscribe_purges_pending_upcalls_of_that_id() {
    let mut kernel = running_kernel();
    let mut res = resources(OpenFilter, true);
    // Install an upcall, then queue two deliveries: one of this upcall and
    // one kernel call.
    kernel.handle_syscall(
        &mut res,
        0,
        Syscall::Subscribe {
            driver_number: 0x1,
            subdriver_number: 0,
            upcall_ptr: FLASH_START + 0x10,
            appdata: 0,
        },
    );
    let pid = ProcessId { index: 0, id: 42 };
    let id = UpcallId { driver_num: 0x1, subscribe_num: 0 };
    let delivery = Task::FunctionCall(FunctionCall {
        source: FunctionCallSource::Driver(id),
        argument0: 0,
        argument1: 0,
        argument2: 0,
        argument3: 0,
        pc: FLASH_START + 0x10,
    });
    let other = Task::FunctionCall(FunctionCall {
        source: FunctionCallSource::Kernel,
        argument0: 0,
        argument1: 0,
        argument2: 0,
        argument3: 0,
        pc: FLASH_START + 0x30,
    });
    kernel.enqueue_task(pid, delivery).unwrap();
    kernel.enqueue_task(pid, other).unwrap();
    let work_before = kernel.work_count();
    // Swapping the upcall discards the queued delivery of the old one but
    // keeps unrelated tasks.
    kernel.handle_syscall(
        &mut res,
        0,
        Syscall::Subscribe {
            driver_number: 0x1,
            subdriver_number: 0,
            upcall_ptr: FLASH_START + 0x20,
            appdata: 1,
        },
    );
    assert!(matches!(last_return(&kernel), SyscallReturn::SubscribeSuccess(_, _)));
    let p = kernel.process_ref(0).unwrap();
    assert_eq!(p.task_count(), 1);
    assert_eq!(kernel.work_count(), work_before - 1);
}

#[test]
fn command_reaches_the_driver() {
    let mut kernel = running_kernel();
    let mut res = resources(OpenFilter, true);
    kernel.handle_syscall(
        &mut res,
        0,
        Syscall::Command { driver_number: 0x1, subdriver_number: 1, arg0: 41, arg1: 0 },
    );
    assert_eq!(last_return(&kernel), SyscallReturn::SuccessU32(42));
}

#[test]
fn command_missing_driver_reports_nodevice() {
    let mut kernel = running_kernel();
    let mut res = resources(OpenFilter, true);
    kernel.handle_syscall(
        &mut res,
        0,
        Syscall::Command { driver_number: 0x9, subdriver_number: 0, arg0: 0, arg1: 0 },
    );
    assert_eq!(last_return(&kernel), SyscallReturn::Failure(ErrorCode::NODEVICE));
}

#[test]
fn filter_rejection_keeps_process_running() {
    // The filter refuses Command on driver 5: the process receives the
    // error and stays Running with its timeslice intact.
    let mut kernel = running_kernel();
    let mut res = resources(CommandBlocker { blocked_driver: 0x5 }, true);
    kernel.handle_syscall(
        &mut res,
        0,
        Syscall::Command { driver_number: 0x5, subdriver_number: 0, arg0: 0, arg1: 0 },
    );
    assert_eq!(last_return(&kernel), SyscallReturn::Failure(ErrorCode::NOSUPPORT));
    let p = kernel.process_ref(0).unwrap();
    assert_eq!(p.get_state(), State::Running);
    // Unfiltered drivers still work.
    kernel.handle_syscall(
        &mut res,
        0,
        Syscall::Command { driver_number: 0x1, subdriver_number: 0, arg0: 0, arg1: 0 },
    );
    assert_eq!(last_return(&kernel), SyscallReturn::Success);
}

#[test]
fn allow_rw_swaps_buffers_atomically() {
    let mut kernel = running_kernel();
    let mut res = resources(OpenFilter, true);
    // First allow: the null buffer comes back.
    kernel.handle_syscall(
        &mut res,
        0,
        Syscall::ReadWriteAllow {
            driver_number: 0x1,
            subdriver_number: 0,
            allow_address: RAM_START + 0x40,
            allow_size: 16,
        },
    );
    assert_eq!(last_return(&kernel), SyscallReturn::AllowReadWriteSuccess(0, 0));
    // Second allow: the previously lent buffer comes back.
    kernel.handle_syscall(
        &mut res,
        0,
        Syscall::ReadWriteAllow {
            driver_number: 0x1,
            subdriver_number: 0,
            allow_address: RAM_START + 0x80,
            allow_size: 32,
        },
    );
    assert_eq!(
        last_return(&kernel),
        SyscallReturn::AllowReadWriteSuccess(RAM_START + 0x40, 16)
    );
    let slot = kernel.process_ref(0).unwrap().get_allow_rw(0x1, 0).unwrap();
    assert_eq!((slot.ptr, slot.len), (RAM_START + 0x80, 32));
}

#[test]
fn allow_rw_invalid_buffer_returns_caller_values() {
    let mut kernel = running_kernel();
    let mut res = resources(OpenFilter, true);
    // The buffer overruns the accessible memory.
    kernel.handle_syscall(
        &mut res,
        0,
        Syscall::ReadWriteAllow {
            driver_number: 0x1,
            subdriver_number: 0,
            allow_address: RAM_START + 0x3F0,
            allow_size: 0x20,
        },
    );
    assert_eq!(
        last_return(&kernel),
        SyscallReturn::AllowReadWriteFailure(ErrorCode::INVAL, RAM_START + 0x3F0, 0x20)
    );
    // Flash is not writable either.
    kernel.handle_syscall(
        &mut res,
        0,
        Syscall::ReadWriteAllow {
            driver_number: 0x1,
            subdriver_number: 0,
            allow_address: FLASH_START,
            allow_size: 8,
        },
    );
    assert_eq!(
        last_return(&kernel),
        SyscallReturn::AllowReadWriteFailure(ErrorCode::INVAL, FLASH_START, 8)
    );
}

#[test]
fn allow_ro_accepts_flash_buffers() {
    let mut kernel = running_kernel();
    let mut res = resources(OpenFilter, true);
    kernel.handle_syscall(
        &mut res,
        0,
        Syscall::ReadOnlyAllow {
            driver_number: 0x1,
            subdriver_number: 1,
            allow_address: FLASH_START + 8,
            allow_size: 16,
        },
    );
    assert_eq!(last_return(&kernel), SyscallReturn::AllowReadOnlySuccess(0, 0));
    kernel.handle_syscall(
        &mut res,
        0,
        Syscall::ReadOnlyAllow {
            driver_number: 0x1,
            subdriver_number: 1,
            allow_address: RAM_START,
            allow_size: 4,
        },
    );
    assert_eq!(
        last_return(&kernel),
        SyscallReturn::AllowReadOnlySuccess(FLASH_START + 8, 16)
    );
}

#[test]
fn userspace_readable_allow_forwards_to_driver() {
    let mut kernel = running_kernel();
    let mut res = resources(OpenFilter, true);
    kernel.handle_syscall(
        &mut res,
        0,
        Syscall::UserspaceReadableAllow {
            driver_number: 0x1,
            subdriver_number: 0,
            allow_address: RAM_START + 4,
            allow_size: 8,
        },
    );
    assert_eq!(
        last_return(&kernel),
        SyscallReturn::UserspaceReadableAllowSuccess(RAM_START + 4, 8)
    );
    // Missing driver.
    kernel.handle_syscall(
        &mut res,
        0,
        Syscall::UserspaceReadableAllow {
            driver_number: 0x9,
            subdriver_number: 0,
            allow_address: RAM_START + 4,
            allow_size: 8,
        },
    );
    assert_eq!(
        last_return(&kernel),
        SyscallReturn::UserspaceReadableAllowFailure(ErrorCode::NODEVICE, RAM_START + 4, 8)
    );
}

#[test]
fn memop_brk_and_bounds() {
    let mut kernel = running_kernel();
    let mut res = resources(OpenFilter, true);
    kernel.handle_syscall(&mut res, 0, Syscall::Memop { operand: 2, arg0: 0 });
    assert_eq!(last_return(&kernel), SyscallReturn::SuccessU32(FLASH_START as u32));
    kernel.handle_syscall(&mut res, 0, Syscall::Memop { operand: 4, arg0: 0 });
    assert_eq!(last_return(&kernel), SyscallReturn::SuccessU32(RAM_START as u32));
    // Move the break down, then verify a buffer past it is refused.
    kernel.handle_syscall(&mut res, 0, Syscall::Memop { operand: 0, arg0: RAM_START + 0x100 });
    assert_eq!(last_return(&kernel), SyscallReturn::Success);
    kernel.handle_syscall(
        &mut res,
        0,
        Syscall::ReadWriteAllow {
            driver_number: 0x1,
            subdriver_number: 1,
            allow_address: RAM_START + 0x180,
            allow_size: 8,
        },
    );
    assert_eq!(
        last_return(&kernel),
        SyscallReturn::AllowReadWriteFailure(ErrorCode::INVAL, RAM_START + 0x180, 8)
    );
    // A break outside the RAM region is refused.
    kernel.handle_syscall(&mut res, 0, Syscall::Memop { operand: 0, arg0: RAM_START + 0x1000 });
    assert_eq!(last_return(&kernel), SyscallReturn::Failure(ErrorCode::NOMEM));
    // Unknown memop.
    kernel.handle_syscall(&mut res, 0, Syscall::Memop { operand: 12, arg0: 0 });
    assert_eq!(last_return(&kernel), SyscallReturn::Failure(ErrorCode::NOSUPPORT));
}

#[test]
fn memop_sbrk_moves_break_by_signed_increment() {
    let mut kernel = running_kernel();
    let mut res = resources(OpenFilter, true);
    kernel.handle_syscall(&mut res, 0, Syscall::Memop { operand: 0, arg0: RAM_START + 0x100 });
    // Grow by 0x40.
    kernel.handle_syscall(&mut res, 0, Syscall::Memop { operand: 1, arg0: 0x40 });
    assert_eq!(
        last_return(&kernel),
        SyscallReturn::SuccessU32((RAM_START + 0x140) as u32)
    );
    // Shrink by 0x40 (two's-complement negative increment).
    kernel.handle_syscall(&mut res, 0, Syscall::Memop { operand: 1, arg0: 0usize.wrapping_sub(0x40) });
    assert_eq!(
        last_return(&kernel),
        SyscallReturn::SuccessU32((RAM_START + 0x100) as u32)
    );
}

#[test]
fn exit_terminate_records_completion() {
    let mut kernel = running_kernel();
    let mut res = resources(OpenFilter, true);
    kernel.handle_syscall(&mut res, 0, Syscall::Exit { which: 0, completion_code: 3 });
    let p = kernel.process_ref(0).unwrap();
    assert_eq!(p.get_state(), State::Terminated);
    assert_eq!(p.get_completion_code(), Some(Some(3)));
    assert_eq!(kernel.work_count(), 0);
}

#[test]
fn exit_restart_mints_a_fresh_identifier() {
    let mut kernel = running_kernel();
    let mut res = resources(OpenFilter, true);
    let old_pid = ProcessId { index: 0, id: 42 };
    assert!(kernel.processid_is_valid(&old_pid));
    kernel.handle_syscall(&mut res, 0, Syscall::Exit { which: 1, completion_code: 0 });
    let p = kernel.process_ref(0).unwrap();
    // The process awaits admission again under a fresh identifier; the old
    // identifier no longer names it.
    assert_eq!(p.get_state(), State::CredentialsApproved);
    assert!(!kernel.processid_is_valid(&old_pid));
    assert_ne!(p.processid().id, 42);
}

#[test]
fn exit_invalid_variant_reports_nosupport() {
    let mut kernel = running_kernel();
    let mut res = resources(OpenFilter, true);
    kernel.handle_syscall(&mut res, 0, Syscall::Exit { which: 7, completion_code: 0 });
    assert_eq!(last_return(&kernel), SyscallReturn::Failure(ErrorCode::NOSUPPORT));
    assert_eq!(kernel.process_ref(0).unwrap().get_state(), State::Running);
}
