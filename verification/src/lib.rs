//! Core of an embedded operating-system kernel for memory-constrained
//! microcontrollers: the main scheduling loop, the process dispatcher, the
//! system-call handler, and the process-credential checking state machine.
//!
//! The kernel mediates all interactions between mutually distrusting user
//! processes and device-driver capsules through a narrow, typed system-call
//! interface. Chip hardware, scheduler policies, and capsules are reached
//! through trait abstractions declared in `platform`; the reference
//! round-robin scheduler lives in `sched`.

use vstd::prelude::*;

pub mod ble;
pub mod checker;
pub mod errorcode;
pub mod kernel;
pub mod platform;
pub mod process;
pub mod sched;
pub mod syscall;
pub mod tbf;

verus! {

/// Threshold in microseconds under which a process's remaining timeslice is
/// considered exhausted: the dispatcher will not re-enter a process whose
/// remaining time is at or below this value.
pub const MIN_QUANTA_THRESHOLD_US: u32 = 500;

} // verus!
