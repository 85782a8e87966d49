//! Abstractions over everything outside the core: the chip, the scheduler
//! policy, the scheduler timer, the system-call filter, the driver
//! (capsule) table, the watchdog, the fault and context-switch hooks, and
//! the IPC service. Boards implement these traits; the core is verified for
//! every behavior an implementation may exhibit.
//!
//! Privileged kernel operations require an unforgeable capability: a marker
//! trait implemented by a board-private type that is handed to the call by
//! value or reference.

use vstd::prelude::*;

use crate::errorcode::ErrorCode;
use crate::kernel::Kernel;
use crate::kernel::StoppedExecutingReason;
use crate::process::IpcType;
use crate::process::Process;
use crate::process::ProcessId;
use crate::syscall::CommandReturn;
use crate::syscall::ContextSwitchReason;
use crate::syscall::Syscall;

verus! {

/// What the scheduler asked the kernel to do next.
#[derive(Clone, Copy, Debug, PartialEq, Eq, Structural)]
pub enum SchedulingDecision {
    /// Run the named process, with a timeslice in microseconds, or without
    /// one (cooperative).
    RunProcess(ProcessId, Option<u32>),
    /// Nothing to run: the chip may sleep if no interrupts are pending.
    TrySleep,
}

/// Capability to manage processes (stop, fault, or inspect them).
pub trait ProcessManagementCapability {

}

/// Capability to create grants during board initialization.
pub trait MemoryAllocationCapability {

}

/// Capability for external process implementations to adjust kernel
/// bookkeeping.
pub trait ExternalProcessCapability {

}

/// Capability to drive the kernel's main loop.
pub trait MainLoopCapability {

}

/// Capability to enqueue a process's first function call.
pub trait ProcessInitCapability {

}

/// Capability to record the outcome of a credential check on a process.
pub trait ProcessApprovalCapability {

}

/// The chip: interrupt state, sleep, the memory-protection unit, and the
/// user/kernel context switch.
pub trait Chip {
    /// Whether any hardware interrupt is pending.
    fn has_pending_interrupts(&mut self) -> bool;

    /// Run the bottom halves of all pending interrupts.
    fn service_pending_interrupts(&mut self);

    /// Whether any deferred kernel call is pending.
    fn has_pending_deferred_calls(&mut self) -> bool;

    /// Run the pending deferred kernel calls.
    fn service_deferred_calls(&mut self);

    /// Enter an interrupts-masked section.
    fn atomic_begin(&mut self);

    /// Leave the interrupts-masked section.
    fn atomic_end(&mut self);

    /// Suspend the chip until the next interrupt.
    fn sleep(&mut self);

    /// Configure the memory-protection unit for the named process.
    fn mpu_configure_for(&mut self, processid: ProcessId);

    /// Enforce the application's memory-protection configuration.
    fn mpu_enable_app(&mut self);

    /// Stop enforcing the application's memory-protection configuration.
    fn mpu_disable_app(&mut self);

    /// Run the named process until it returns to the kernel; reports why it
    /// returned, or `None` when the switch itself went wrong.
    fn switch_to_process(&mut self, processid: ProcessId) -> Option<ContextSwitchReason>;
}

/// The hardware timer that bounds a process's timeslice.
pub trait SchedulerTimer {
    /// Stop the timer and clear any pending expiry.
    fn reset(&mut self);

    /// Start counting down from `us` microseconds.
    fn start(&mut self, us: u32);

    /// Generate an interrupt when the timeslice expires.
    fn arm(&mut self);

    /// Stop generating the expiry interrupt; the timer keeps counting.
    fn disarm(&mut self);

    /// Microseconds left in the current timeslice; `None` once it has
    /// expired. Must not be called again after it returned `None`.
    fn get_remaining_us(&mut self) -> Option<u32>;
}

/// The scheduling policy: which process runs next and for how long.
pub trait Scheduler {
    /// Decide what to do next: run a process or try to sleep.
    fn next(&mut self, kernel: &Kernel) -> SchedulingDecision;

    /// Learn why the dispatched process stopped and how long it ran.
    fn result(&mut self, reason: StoppedExecutingReason, time_executed_us: Option<u32>);

    /// Whether kernel work (interrupt bottom halves, deferred calls) should
    /// run now instead of a process.
    fn do_kernel_work_now(&mut self, pending_interrupts: bool, pending_deferred_calls: bool) -> bool;

    /// Whether the dispatched process should keep running, given the
    /// current kernel work state.
    fn continue_process(
        &mut self,
        processid: ProcessId,
        pending_interrupts: bool,
        pending_deferred_calls: bool,
    ) -> bool;
}

/// The board's system-call filter: may reject Command, Subscribe, and Allow
/// calls before they reach a capsule.
pub trait SyscallFilter {
    /// Return `Err(code)` to reject the system call; the process receives
    /// `Failure(code)` and keeps its timeslice.
    fn filter_syscall(&mut self, process: &Process, syscall: &Syscall) -> Result<(), ErrorCode>;
}

/// The board's process-fault hook: may recover a faulted process before the
/// kernel marks it Faulted.
pub trait ProcessFault {
    /// Return `Ok` when the fault was handled; `Err` lets the kernel mark
    /// the process Faulted.
    fn process_fault_hook(&mut self, process: &Process) -> Result<(), ErrorCode>;
}

/// Hook invoked just before each switch into a user process.
pub trait ContextSwitchCallback {
    /// Called with the process about to run.
    fn context_switch_hook(&mut self, process: &Process);
}

/// The board's watchdog.
pub trait WatchDog {
    /// One-time setup at boot.
    fn setup(&mut self);

    /// Signal liveness once per main-loop iteration.
    fn tickle(&mut self);

    /// Stop the watchdog before the chip sleeps.
    fn suspend(&mut self);

    /// Restart the watchdog after the chip wakes.
    fn resume(&mut self);
}

/// The table of system-call drivers (capsules). `None` results mean no
/// driver is installed under that number.
pub trait DriverTable {
    /// Whether a driver is installed under `driver_num`.
    fn has_driver(&mut self, driver_num: usize) -> bool;

    /// Synchronously run the driver's command.
    fn command(
        &mut self,
        driver_num: usize,
        subdriver_num: usize,
        arg0: usize,
        arg1: usize,
        processid: ProcessId,
    ) -> Option<CommandReturn>;

    /// Ask the driver to consent to allocating its grant for the process;
    /// `Some(true)` means the kernel should materialize the grant region.
    fn allocate_grant(&mut self, driver_num: usize, processid: ProcessId) -> Option<bool>;

    /// Lend `[ptr, ptr + len)` to the driver as a userspace-readable
    /// buffer; the driver returns the buffer it previously held, or rejects
    /// the new one.
    fn allow_userspace_readable(
        &mut self,
        driver_num: usize,
        subdriver_num: usize,
        processid: ProcessId,
        ptr: usize,
        len: usize,
    ) -> Option<Result<(usize, usize), (ErrorCode, usize, usize)>>;
}

/// The inter-process-communication service, reached when a queued IPC task
/// is dispatched.
pub trait IpcService {
    /// Schedule the IPC upcall on the peer.
    fn schedule_upcall(
        &mut self,
        schedule_for: ProcessId,
        called_from: ProcessId,
        ipc_type: IpcType,
    ) -> Result<(), ErrorCode>;
}

/// The board's collaborators, handed to the main loop and the dispatcher.
/// The chip is passed alongside, not stored here.
pub struct KernelResources<S, T, W, F, PF, CB, D, I> {
    /// The scheduling policy.
    pub scheduler: S,
    /// The timer bounding process timeslices.
    pub scheduler_timer: T,
    /// The watchdog.
    pub watchdog: W,
    /// The system-call filter.
    pub syscall_filter: F,
    /// The process-fault hook.
    pub process_fault: PF,
    /// The context-switch hook.
    pub context_switch_callback: CB,
    /// The driver (capsule) table.
    pub drivers: D,
    /// The inter-process-communication service, when the board has one.
    pub ipc: Option<I>,
}

} // verus!
