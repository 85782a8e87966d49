//! The system-call interface: decoded system calls, the wire-format return
//! values handed back to userspace, and the reasons a context switch returned
//! to the kernel.

use vstd::prelude::*;

use crate::errorcode::ErrorCode;

verus! {

/// The variants of the Yield system call.
#[derive(Clone, Copy, Debug, PartialEq, Eq, Structural)]
pub enum YieldCall {
    /// Return immediately; report whether upcalls are pending.
    NoWait,
    /// Block until an upcall fires.
    Wait,
}

impl YieldCall {
    /// The ABI number of this yield variant.
    pub fn as_usize(self) -> (r: usize)
        ensures
            self is NoWait ==> r == 0,
            self is Wait ==> r == 1,
    {
        match self {
            YieldCall::NoWait => 0,
            YieldCall::Wait => 1,
        }
    }
}

/// A decoded system call from a user process. Addresses and function pointers
/// are carried as plain machine words.
#[derive(Clone, Copy, Debug, PartialEq, Eq, Structural)]
pub enum Syscall {
    /// Yield control to the kernel; `which` selects wait (1) or no-wait (0),
    /// and the kernel writes an "upcalls will fire" flag byte to `address`.
    Yield { which: usize, address: usize },
    /// Register (or, with a null pointer, clear) an upcall for
    /// `(driver_number, subdriver_number)`.
    Subscribe {
        driver_number: usize,
        subdriver_number: usize,
        upcall_ptr: usize,
        appdata: usize,
    },
    /// Synchronous call into a capsule.
    Command {
        driver_number: usize,
        subdriver_number: usize,
        arg0: usize,
        arg1: usize,
    },
    /// Lend a read-write buffer to a capsule.
    ReadWriteAllow {
        driver_number: usize,
        subdriver_number: usize,
        allow_address: usize,
        allow_size: usize,
    },
    /// Lend a buffer that remains readable by userspace while lent.
    UserspaceReadableAllow {
        driver_number: usize,
        subdriver_number: usize,
        allow_address: usize,
        allow_size: usize,
    },
    /// Lend a read-only buffer to a capsule.
    ReadOnlyAllow {
        driver_number: usize,
        subdriver_number: usize,
        allow_address: usize,
        allow_size: usize,
    },
    /// Builtin memory operations (brk, sbrk, bounds reporting).
    Memop { operand: usize, arg0: usize },
    /// Terminate (`which == 0`) or restart (`which == 1`) the process.
    Exit { which: usize, completion_code: usize },
}

impl Syscall {
    /// Whether the kernel's system-call filter applies to this class.
    /// Yield, Exit, and Memop are unfilterable.
    pub fn filterable(&self) -> (r: bool)
        ensures
            r == spec_filterable(*self),
    {
        match self {
            Syscall::Yield { .. } => false,
            Syscall::Exit { .. } => false,
            Syscall::Memop { .. } => false,
            _ => true,
        }
    }
}

/// Which system-call classes are subject to the filter policy.
pub open spec fn spec_filterable(s: Syscall) -> bool {
    !(s is Yield || s is Exit || s is Memop)
}

/// Wire-format return value set for a process after a system call completes.
#[derive(Clone, Copy, Debug, PartialEq, Eq, Structural)]
pub enum SyscallReturn {
    /// Generic success.
    Success,
    /// Success carrying one word.
    SuccessU32(u32),
    /// Success carrying two words.
    SuccessU32U32(u32, u32),
    /// Success carrying three words.
    SuccessU32U32U32(u32, u32, u32),
    /// Generic failure.
    Failure(ErrorCode),
    /// Failure carrying one word.
    FailureU32(ErrorCode, u32),
    /// Failure carrying two words.
    FailureU32U32(ErrorCode, u32, u32),
    /// Read-write allow succeeded; carries the previously lent (ptr, len).
    AllowReadWriteSuccess(usize, usize),
    /// Read-write allow failed; carries the rejected (ptr, len).
    AllowReadWriteFailure(ErrorCode, usize, usize),
    /// Userspace-readable allow succeeded; carries the previous (ptr, len).
    UserspaceReadableAllowSuccess(usize, usize),
    /// Userspace-readable allow failed; carries the rejected (ptr, len).
    UserspaceReadableAllowFailure(ErrorCode, usize, usize),
    /// Read-only allow succeeded; carries the previously lent (ptr, len).
    AllowReadOnlySuccess(usize, usize),
    /// Read-only allow failed; carries the rejected (ptr, len).
    AllowReadOnlyFailure(ErrorCode, usize, usize),
    /// Subscribe succeeded; carries the previous (function pointer, appdata).
    SubscribeSuccess(usize, usize),
    /// Subscribe failed; carries the rejected (function pointer, appdata).
    SubscribeFailure(ErrorCode, usize, usize),
}

impl SyscallReturn {
    /// Whether this return value reports success to the process.
    pub fn is_success(&self) -> (r: bool)
        ensures
            r == spec_is_success(*self),
    {
        match self {
            SyscallReturn::Success => true,
            SyscallReturn::SuccessU32(_) => true,
            SyscallReturn::SuccessU32U32(_, _) => true,
            SyscallReturn::SuccessU32U32U32(_, _, _) => true,
            SyscallReturn::AllowReadWriteSuccess(_, _) => true,
            SyscallReturn::UserspaceReadableAllowSuccess(_, _) => true,
            SyscallReturn::AllowReadOnlySuccess(_, _) => true,
            SyscallReturn::SubscribeSuccess(_, _) => true,
            _ => false,
        }
    }
}

/// The success variants of `SyscallReturn`.
pub open spec fn spec_is_success(r: SyscallReturn) -> bool {
    ||| r is Success
    ||| r is SuccessU32
    ||| r is SuccessU32U32
    ||| r is SuccessU32U32U32
    ||| r is AllowReadWriteSuccess
    ||| r is UserspaceReadableAllowSuccess
    ||| r is AllowReadOnlySuccess
    ||| r is SubscribeSuccess
}

/// Typed return value a capsule produces for a Command system call. The
/// kernel converts it into the wire format with `from_command_return`.
#[derive(Clone, Copy, Debug, PartialEq, Eq, Structural)]
pub enum CommandReturn {
    /// Command failed.
    Failure(ErrorCode),
    /// Command failed, with one word of data.
    FailureU32(ErrorCode, u32),
    /// Command failed, with two words of data.
    FailureU32U32(ErrorCode, u32, u32),
    /// Command succeeded.
    Success,
    /// Command succeeded, with one word of data.
    SuccessU32(u32),
    /// Command succeeded, with two words of data.
    SuccessU32U32(u32, u32),
    /// Command succeeded, with three words of data.
    SuccessU32U32U32(u32, u32, u32),
}

/// The wire-format image of a capsule command return.
pub open spec fn spec_from_command_return(c: CommandReturn) -> SyscallReturn {
    match c {
        CommandReturn::Failure(e) => SyscallReturn::Failure(e),
        CommandReturn::FailureU32(e, a) => SyscallReturn::FailureU32(e, a),
        CommandReturn::FailureU32U32(e, a, b) => SyscallReturn::FailureU32U32(e, a, b),
        CommandReturn::Success => SyscallReturn::Success,
        CommandReturn::SuccessU32(a) => SyscallReturn::SuccessU32(a),
        CommandReturn::SuccessU32U32(a, b) => SyscallReturn::SuccessU32U32(a, b),
        CommandReturn::SuccessU32U32U32(a, b, c) => SyscallReturn::SuccessU32U32U32(a, b, c),
    }
}

impl SyscallReturn {
    /// Convert a capsule's typed command return into the wire format.
    pub fn from_command_return(c: CommandReturn) -> (r: SyscallReturn)
        ensures
            r == spec_from_command_return(c),
    {
        match c {
            CommandReturn::Failure(e) => SyscallReturn::Failure(e),
            CommandReturn::FailureU32(e, a) => SyscallReturn::FailureU32(e, a),
            CommandReturn::FailureU32U32(e, a, b) => SyscallReturn::FailureU32U32(e, a, b),
            CommandReturn::Success => SyscallReturn::Success,
            CommandReturn::SuccessU32(a) => SyscallReturn::SuccessU32(a),
            CommandReturn::SuccessU32U32(a, b) => SyscallReturn::SuccessU32U32(a, b),
            CommandReturn::SuccessU32U32U32(a, b, c) => SyscallReturn::SuccessU32U32U32(a, b, c),
        }
    }
}

/// Why a context switch returned control from a user process to the kernel.
#[derive(Clone, Copy, Debug, PartialEq, Eq, Structural)]
pub enum ContextSwitchReason {
    /// The process issued a system call.
    SyscallFired { syscall: Syscall },
    /// The process triggered a hardware fault.
    Fault,
    /// A hardware interrupt (possibly the timeslice timer) fired.
    Interrupted,
}

} // verus!
