//! The model of a loaded user process: lifecycle state, task queue,
//! kernel-owned grant storage (upcall slots and allow-buffer slots), and the
//! process's flash and RAM layout.
//!
//! The kernel owns every `Process` and is the only component that mutates
//! one; capsules and boards observe processes through read-only getters and
//! drive changes through `Kernel` methods, which maintain the kernel's work
//! accounting.

use vstd::prelude::*;

use crate::errorcode::ErrorCode;
use crate::syscall::SyscallReturn;
use crate::tbf::TbfFooterV2Credentials;

verus! {

/// Lifecycle state of a process.
#[derive(Clone, Copy, Debug, PartialEq, Eq, Structural)]
pub enum State {
    /// Expects to run; will be context-switched to when dispatched.
    Running,
    /// Waiting for an upcall; runnable when a task is queued.
    Yielded,
    /// Stopped by the kernel while it was Running.
    StoppedRunning,
    /// Stopped by the kernel while it was Yielded.
    StoppedYielded,
    /// Crashed (for example, an MPU violation); never scheduled.
    Faulted,
    /// Exited or was terminated; never scheduled.
    Terminated,
    /// Loaded, but its credentials have not been checked yet.
    CredentialsUnchecked,
    /// Credentials accepted; awaiting the uniqueness check and first run.
    CredentialsApproved,
    /// Credentials rejected; never scheduled.
    CredentialsFailed,
}

/// States in which a process must never be dispatched and never holds
/// queued tasks.
pub open spec fn state_is_unrunnable(s: State) -> bool {
    ||| s is Faulted
    ||| s is Terminated
    ||| s is CredentialsUnchecked
    ||| s is CredentialsFailed
}

/// States a process may be in when the dispatcher acts on it.
pub open spec fn state_is_schedulable(s: State) -> bool {
    ||| s is Running
    ||| s is Yielded
    ||| s is CredentialsApproved
    ||| s is StoppedRunning
    ||| s is StoppedYielded
}

/// Stable identifier of a process: the slot index in the process table and
/// a boot-unique generation identifier. A lookup succeeds only when both
/// match, which guards against aliasing a restarted process.
#[derive(Clone, Copy, Debug, PartialEq, Eq, Structural)]
pub struct ProcessId {
    /// Index of the process in the kernel's process table.
    pub index: usize,
    /// Generation identifier, unique within a boot.
    pub id: usize,
}

/// Compact kernel-assigned identifier derived from a process's credentials,
/// used for uniqueness checks among admitted processes.
#[derive(Clone, Copy, Debug, PartialEq, Eq, Structural)]
pub enum ShortID {
    /// No fixed identity claimed; never collides with another process.
    LocallyUnique,
    /// A fixed application identity; two admitted processes must not share
    /// one.
    Fixed(u32),
}

/// Identifier of an upcall: the driver and subscribe slot it belongs to.
#[derive(Clone, Copy, Debug, PartialEq, Eq, Structural)]
pub struct UpcallId {
    /// Driver number the upcall belongs to.
    pub driver_num: usize,
    /// Subscribe slot within the driver.
    pub subscribe_num: usize,
}

/// Where a queued function call came from.
#[derive(Clone, Copy, Debug, PartialEq, Eq, Structural)]
pub enum FunctionCallSource {
    /// Queued by the kernel itself (for example, the init call).
    Kernel,
    /// Queued on behalf of a driver as the named upcall.
    Driver(UpcallId),
}

/// A function call to deliver to a process: the entry point and four
/// arguments.
#[derive(Clone, Copy, Debug, PartialEq, Eq, Structural)]
pub struct FunctionCall {
    /// Whether this call is an upcall of a driver or a kernel-queued call.
    pub source: FunctionCallSource,
    /// First argument.
    pub argument0: usize,
    /// Second argument.
    pub argument1: usize,
    /// Third argument.
    pub argument2: usize,
    /// Fourth argument.
    pub argument3: usize,
    /// Entry point of the call.
    pub pc: usize,
}

/// Direction of an inter-process-communication task.
#[derive(Clone, Copy, Debug, PartialEq, Eq, Structural)]
pub enum IpcType {
    /// Notify the peer in its role as an IPC service.
    Service,
    /// Notify the peer in its role as an IPC client.
    Client,
}

/// A unit of queued work for a process.
#[derive(Clone, Copy, Debug, PartialEq, Eq, Structural)]
pub enum Task {
    /// Run a function in the process.
    FunctionCall(FunctionCall),
    /// Notify the named peer through the IPC service.
    IPC(ProcessId, IpcType),
}

/// Whether a task is the delivery of the named upcall.
pub open spec fn is_upcall_task(t: Task, id: UpcallId) -> bool {
    match t {
        Task::FunctionCall(fc) => fc.source == FunctionCallSource::Driver(id),
        Task::IPC(_, _) => false,
    }
}

/// The tasks kept when purging deliveries of the upcall `id`.
pub open spec fn keeps_other_upcalls(id: UpcallId) -> spec_fn(Task) -> bool {
    |t: Task| !is_upcall_task(t, id)
}

/// One upcall slot of a grant: the registered function pointer (0 when
/// unset) and the userdata word returned with it.
#[derive(Clone, Copy, Debug, PartialEq, Eq, Structural)]
pub struct UpcallSlot {
    /// Registered upcall function pointer; 0 means none.
    pub fn_ptr: usize,
    /// Userdata word passed back to the process with the upcall.
    pub appdata: usize,
}

/// One allow slot of a grant: the lent buffer's address and length, (0, 0)
/// when nothing is lent.
#[derive(Clone, Copy, Debug, PartialEq, Eq, Structural)]
pub struct AllowSlot {
    /// Address of the lent buffer; 0 means none.
    pub ptr: usize,
    /// Length of the lent buffer.
    pub len: usize,
}

/// Kernel-owned per-(process, driver) grant storage: the upcall slots and
/// allow-buffer slots of one driver for one process. A grant exists only
/// once it has been lazily allocated on first use.
#[derive(Debug)]
pub struct GrantRegion {
    /// The driver this grant belongs to.
    pub driver_num: usize,
    /// Upcall slots, indexed by subscribe number.
    pub upcalls: Vec<UpcallSlot>,
    /// Read-write allow slots, indexed by allow number.
    pub allow_rw: Vec<AllowSlot>,
    /// Read-only allow slots, indexed by allow number.
    pub allow_ro: Vec<AllowSlot>,
}

/// The two processes agree on every field except the grant table.
pub open spec fn same_except_grants(a: Process, b: Process) -> bool {
    b == (Process { grants: b.grants, ..a })
}

/// `n` empty upcall slots.
pub open spec fn empty_upcalls(n: nat) -> Seq<UpcallSlot> {
    Seq::new(n, |i: int| UpcallSlot { fn_ptr: 0, appdata: 0 })
}

/// `n` empty allow slots.
pub open spec fn empty_allows(n: nat) -> Seq<AllowSlot> {
    Seq::new(n, |i: int| AllowSlot { ptr: 0, len: 0 })
}

/// The grant at index `i` carries out the upcall swap `(d, sub)`:
/// `newslot` goes in, `prev` was there, nothing else moves.
pub open spec fn upcall_swap_at(
    a: Process,
    b: Process,
    d: usize,
    sub: usize,
    newslot: UpcallSlot,
    prev: UpcallSlot,
    i: int,
) -> bool {
    &&& 0 <= i < a.grants@.len()
    &&& a.grants@[i].driver_num == d
    &&& sub < a.grants@[i].upcalls@.len()
    &&& prev == a.grants@[i].upcalls@[sub as int]
    &&& (forall|k: int| 0 <= k < a.grants@.len() && k != i ==> #[trigger] b.grants@[k] == a.grants@[k])
    &&& b.grants@[i].driver_num == a.grants@[i].driver_num
    &&& b.grants@[i].upcalls@ == a.grants@[i].upcalls@.update(sub as int, newslot)
    &&& b.grants@[i].allow_rw@ == a.grants@[i].allow_rw@
    &&& b.grants@[i].allow_ro@ == a.grants@[i].allow_ro@
}

/// `b` is `a` with the upcall slot `(d, sub)` replaced by `newslot`, whose
/// previous contents were `prev`; everything else is unchanged.
pub open spec fn upcall_swap_spec(
    a: Process,
    b: Process,
    d: usize,
    sub: usize,
    newslot: UpcallSlot,
    prev: UpcallSlot,
) -> bool {
    &&& same_except_grants(a, b)
    &&& b.grants@.len() == a.grants@.len()
    &&& exists|i: int| upcall_swap_at(a, b, d, sub, newslot, prev, i)
}

/// The grant at index `i` carries out the read-write allow swap `(d,
/// sub)`: `newslot` goes in, `prev` was there, nothing else moves.
pub open spec fn allow_rw_swap_at(
    a: Process,
    b: Process,
    d: usize,
    sub: usize,
    newslot: AllowSlot,
    prev: AllowSlot,
    i: int,
) -> bool {
    &&& 0 <= i < a.grants@.len()
    &&& a.grants@[i].driver_num == d
    &&& sub < a.grants@[i].allow_rw@.len()
    &&& prev == a.grants@[i].allow_rw@[sub as int]
    &&& (forall|k: int| 0 <= k < a.grants@.len() && k != i ==> #[trigger] b.grants@[k] == a.grants@[k])
    &&& b.grants@[i].driver_num == a.grants@[i].driver_num
    &&& b.grants@[i].allow_rw@ == a.grants@[i].allow_rw@.update(sub as int, newslot)
    &&& b.grants@[i].upcalls@ == a.grants@[i].upcalls@
    &&& b.grants@[i].allow_ro@ == a.grants@[i].allow_ro@
}

/// `b` is `a` with the read-write allow slot `(d, sub)` replaced by
/// `newslot`, whose previous contents were `prev`; everything else is
/// unchanged.
pub open spec fn allow_rw_swap_spec(
    a: Process,
    b: Process,
    d: usize,
    sub: usize,
    newslot: AllowSlot,
    prev: AllowSlot,
) -> bool {
    &&& same_except_grants(a, b)
    &&& b.grants@.len() == a.grants@.len()
    &&& exists|i: int| allow_rw_swap_at(a, b, d, sub, newslot, prev, i)
}

/// The grant at index `i` carries out the read-only allow swap `(d, sub)`:
/// `newslot` goes in, `prev` was there, nothing else moves.
pub open spec fn allow_ro_swap_at(
    a: Process,
    b: Process,
    d: usize,
    sub: usize,
    newslot: AllowSlot,
    prev: AllowSlot,
    i: int,
) -> bool {
    &&& 0 <= i < a.grants@.len()
    &&& a.grants@[i].driver_num == d
    &&& sub < a.grants@[i].allow_ro@.len()
    &&& prev == a.grants@[i].allow_ro@[sub as int]
    &&& (forall|k: int| 0 <= k < a.grants@.len() && k != i ==> #[trigger] b.grants@[k] == a.grants@[k])
    &&& b.grants@[i].driver_num == a.grants@[i].driver_num
    &&& b.grants@[i].allow_ro@ == a.grants@[i].allow_ro@.update(sub as int, newslot)
    &&& b.grants@[i].upcalls@ == a.grants@[i].upcalls@
    &&& b.grants@[i].allow_rw@ == a.grants@[i].allow_rw@
}

/// `b` is `a` with the read-only allow slot `(d, sub)` replaced by
/// `newslot`, whose previous contents were `prev`; everything else is
/// unchanged.
pub open spec fn allow_ro_swap_spec(
    a: Process,
    b: Process,
    d: usize,
    sub: usize,
    newslot: AllowSlot,
    prev: AllowSlot,
) -> bool {
    &&& same_except_grants(a, b)
    &&& b.grants@.len() == a.grants@.len()
    &&& exists|i: int| allow_ro_swap_at(a, b, d, sub, newslot, prev, i)
}

/// A loaded user process.
///
/// Flash is modeled as the code-integrity region bytes followed by the
/// footer bytes; RAM as a byte array starting at `ram_start`, of which
/// `[ram_start, app_break)` is currently accessible to the process.
pub struct Process {
    /// Slot index in the kernel's process table.
    pub index: usize,
    /// Boot-unique generation identifier.
    pub id: usize,
    /// Lifecycle state.
    pub state: State,
    /// Identity derived from credentials at approval.
    pub short_id: ShortID,
    /// The credentials that approved this process, if any were presented.
    pub credentials: Option<TbfFooterV2Credentials>,
    /// Set on termination: the completion code the process supplied, if any.
    pub completion_code: Option<Option<u32>>,
    /// How many times the process has been restarted.
    pub restart_count: usize,
    /// FIFO queue of pending tasks.
    pub tasks: Vec<Task>,
    /// Base address of the process's flash region.
    pub flash_start: usize,
    /// Bytes of the code-integrity region, `[flash_start,
    /// flash_integrity_end)`.
    pub integrity: Vec<u8>,
    /// Footer bytes, `[flash_integrity_end, flash_end)`.
    pub footers: Vec<u8>,
    /// Base address of the process's RAM region.
    pub ram_start: usize,
    /// Backing bytes of the RAM region.
    pub ram: Vec<u8>,
    /// End of the RAM currently accessible to the process.
    pub app_break: usize,
    /// Lazily allocated grant regions, at most one per driver.
    pub grants: Vec<GrantRegion>,
    /// The most recent system-call return value set for the process.
    pub syscall_return: Option<SyscallReturn>,
    /// The function call most recently installed for execution.
    pub installed_function: Option<FunctionCall>,
    /// How many times this process's timeslice expired.
    pub timeslice_expirations: usize,
}

impl Process {
    /// First address past the code-integrity region, where footers begin.
    pub open spec fn flash_integrity_end(self) -> int {
        self.flash_start + self.integrity@.len()
    }

    /// First address past the process's flash.
    pub open spec fn flash_end(self) -> int {
        self.flash_start + self.integrity@.len() + self.footers@.len()
    }

    /// Well-formedness: unrunnable processes hold no tasks, the memory
    /// layout is consistent, and each driver has at most one grant.
    pub open spec fn wf(self) -> bool {
        &&& state_is_unrunnable(self.state) ==> self.tasks@.len() == 0
        &&& self.ram_start + self.ram@.len() <= usize::MAX
        &&& self.ram_start <= self.app_break <= self.ram_start + self.ram@.len()
        &&& self.flash_end() <= usize::MAX
        &&& forall|i: int, j: int|
            0 <= i < j < self.grants@.len() ==> self.grants@[i].driver_num
                != self.grants@[j].driver_num
    }

    /// Units of outstanding kernel work this process accounts for: its
    /// queued tasks, plus one when it is runnable in itself (Running) or
    /// its admission is still pending (CredentialsApproved).
    pub open spec fn pending_work(self) -> nat {
        self.tasks@.len() + if self.state is Running || self.state is CredentialsApproved {
            1nat
        } else {
            0nat
        }
    }

    /// The stable identifier of this process.
    pub open spec fn spec_processid(self) -> ProcessId {
        ProcessId { index: self.index, id: self.id }
    }

    /// Whether the dispatcher has anything to do for this process.
    pub open spec fn spec_ready(self) -> bool {
        ||| self.tasks@.len() > 0
        ||| self.state is Running
        ||| self.state is CredentialsApproved
    }

    /// Whether this process has an allocated grant for `driver_num`.
    pub open spec fn has_grant(self, driver_num: usize) -> bool {
        exists|i: int| 0 <= i < self.grants@.len() && self.grants@[i].driver_num == driver_num
    }


    /// Whether `[addr, addr + len)` lies in the process's accessible
    /// read-write memory. A zero-length buffer is always acceptable.
    pub open spec fn rw_buffer_valid(self, addr: usize, len: usize) -> bool {
        len == 0 || (self.ram_start <= addr && addr + len <= self.app_break)
    }

    /// Whether `[addr, addr + len)` lies in memory the process may lend
    /// read-only: its accessible read-write memory or its flash.
    pub open spec fn ro_buffer_valid(self, addr: usize, len: usize) -> bool {
        ||| self.rw_buffer_valid(addr, len)
        ||| (self.flash_start <= addr && addr + len <= self.flash_end())
    }

    /// Construct a newly loaded process. RAM starts zeroed and fully
    /// accessible; no tasks are queued and no grants are allocated.
    pub fn new(
        index: usize,
        id: usize,
        state: State,
        flash_start: usize,
        integrity: Vec<u8>,
        footers: Vec<u8>,
        ram_start: usize,
        ram_size: usize,
    ) -> (p: Process)
        requires
            flash_start + integrity@.len() + footers@.len() <= usize::MAX,
            ram_start + ram_size <= usize::MAX,
        ensures
            p.wf(),
            p.index == index,
            p.id == id,
            p.state == state,
            p.short_id == ShortID::LocallyUnique,
            p.credentials is None,
            p.completion_code is None,
            p.restart_count == 0,
            p.tasks@.len() == 0,
            p.flash_start == flash_start,
            p.integrity == integrity,
            p.footers == footers,
            p.ram_start == ram_start,
            p.ram@.len() == ram_size,
            p.app_break == ram_start + ram_size,
            p.grants@.len() == 0,
            p.syscall_return is None,
            p.installed_function is None,
            p.pending_work() == if state is Running || state is CredentialsApproved {
                1int
            } else {
                0int
            },
    {
        let mut ram: Vec<u8> = Vec::new();
        let mut i: usize = 0;
        while i < ram_size
            invariant
                i <= ram_size,
                ram@.len() == i,
            decreases ram_size - i,
        {
            ram.push(0);
            i = i + 1;
        }
        Process {
            index,
            id,
            state,
            short_id: ShortID::LocallyUnique,
            credentials: None,
            completion_code: None,
            restart_count: 0,
            tasks: Vec::new(),
            flash_start,
            integrity,
            footers,
            ram_start,
            ram,
            app_break: ram_start + ram_size,
            grants: Vec::new(),
            syscall_return: None,
            installed_function: None,
            timeslice_expirations: 0,
        }
    }

    /// The stable identifier of this process.
    pub fn processid(&self) -> (r: ProcessId)
        ensures
            r == self.spec_processid(),
    {
        ProcessId { index: self.index, id: self.id }
    }

    /// Current lifecycle state.
    pub fn get_state(&self) -> (r: State)
        ensures
            r == self.state,
    {
        self.state
    }

    /// How many tasks are queued for this process.
    pub fn task_count(&self) -> (r: usize)
        ensures
            r == self.tasks@.len(),
    {
        self.tasks.len()
    }

    /// Whether any tasks are queued for this process.
    pub fn has_tasks(&self) -> (r: bool)
        ensures
            r == (self.tasks@.len() > 0),
    {
        self.tasks.len() > 0
    }

    /// Whether the dispatcher has anything to do for this process.
    pub fn ready(&self) -> (r: bool)
        ensures
            r == self.spec_ready(),
    {
        self.tasks.len() > 0 || matches!(self.state, State::Running)
            || matches!(self.state, State::CredentialsApproved)
    }

    /// The most recent system-call return value set for the process.
    pub fn get_syscall_return(&self) -> (r: Option<SyscallReturn>)
        ensures
            r == self.syscall_return,
    {
        self.syscall_return
    }

    /// The identity assigned to this process at credential approval.
    pub fn get_short_id(&self) -> (r: ShortID)
        ensures
            r == self.short_id,
    {
        self.short_id
    }

    /// The completion code recorded at termination, if the process has
    /// terminated.
    pub fn get_completion_code(&self) -> (r: Option<Option<u32>>)
        ensures
            r == self.completion_code,
    {
        self.completion_code
    }

    /// Read one byte of the process's RAM, if `addr` lies within it.
    pub fn read_byte(&self, addr: usize) -> (r: Option<u8>)
        requires
            self.wf(),
        ensures
            self.ram_start <= addr < self.ram_start + self.ram@.len() ==> r == Some(
                self.ram@[addr - self.ram_start],
            ),
            !(self.ram_start <= addr < self.ram_start + self.ram@.len()) ==> r is None,
    {
        if addr >= self.ram_start && addr - self.ram_start < self.ram.len() {
            Some(self.ram[addr - self.ram_start])
        } else {
            None
        }
    }

    /// Write one byte into the process's accessible RAM. An address outside
    /// the accessible region is silently ignored; returns whether the write
    /// happened.
    pub fn set_byte(&mut self, addr: usize, value: u8) -> (r: bool)
        requires
            old(self).wf(),
        ensures
            final(self).wf(),
            r == (old(self).ram_start <= addr < old(self).app_break),
            r ==> *final(self) == (Process { ram: final(self).ram, ..*old(self) }),
            r ==> final(self).ram@ == old(self).ram@.update(addr - old(self).ram_start, value),
            !r ==> *final(self) == *old(self),
    {
        if addr >= self.ram_start && addr < self.app_break {
            let off: usize = addr - self.ram_start;
            self.ram[off] = value;
            true
        } else {
            false
        }
    }

    /// Whether `ptr` is a valid upcall entry point: inside the process's
    /// executable flash (the code-integrity region).
    pub fn is_valid_upcall_function_pointer(&self, ptr: usize) -> (r: bool)
        requires
            self.wf(),
        ensures
            r == (self.flash_start <= ptr < self.flash_integrity_end()),
    {
        ptr >= self.flash_start && ptr - self.flash_start < self.integrity.len()
    }

    /// Whether the process may lend `[addr, addr + len)` read-write.
    pub fn rw_buffer_in_bounds(&self, addr: usize, len: usize) -> (r: bool)
        requires
            self.wf(),
        ensures
            r == self.rw_buffer_valid(addr, len),
    {
        len == 0 || (addr >= self.ram_start && len <= self.app_break && addr <= self.app_break
            - len)
    }

    /// Whether the process may lend `[addr, addr + len)` read-only.
    pub fn ro_buffer_in_bounds(&self, addr: usize, len: usize) -> (r: bool)
        requires
            self.wf(),
        ensures
            r == self.ro_buffer_valid(addr, len),
    {
        if self.rw_buffer_in_bounds(addr, len) {
            true
        } else {
            let flash_end: usize = self.flash_start + self.integrity.len() + self.footers.len();
            addr >= self.flash_start && len <= flash_end && addr <= flash_end - len
        }
    }

    /// How many grants this process has allocated.
    pub fn grant_allocated_count(&self) -> (r: usize)
        ensures
            r == self.grants@.len(),
    {
        self.grants.len()
    }

    /// Find the allocated grant for `driver_num`, if any.
    fn find_grant(&self, driver_num: usize) -> (r: Option<usize>)
        ensures
            match r {
                Some(i) => i < self.grants@.len() && self.grants@[i as int].driver_num
                    == driver_num,
                None => !self.has_grant(driver_num),
            },
    {
        let mut i: usize = 0;
        while i < self.grants.len()
            invariant
                i <= self.grants@.len(),
                forall|j: int| 0 <= j < i ==> self.grants@[j].driver_num != driver_num,
            decreases self.grants@.len() - i,
        {
            if self.grants[i].driver_num == driver_num {
                return Some(i);
            }
            i = i + 1;
        }
        None
    }

    /// Whether this process has an allocated grant for `driver_num`.
    pub fn grant_is_allocated(&self, driver_num: usize) -> (r: bool)
        ensures
            r == self.has_grant(driver_num),
    {
        self.find_grant(driver_num).is_some()
    }

    /// Allocate the grant region for `driver_num` with the given slot
    /// counts, all slots initially empty.
    pub fn allocate_grant_region(
        &mut self,
        driver_num: usize,
        upcall_count: usize,
        allow_rw_count: usize,
        allow_ro_count: usize,
    )
        requires
            old(self).wf(),
            !old(self).has_grant(driver_num),
        ensures
            final(self).wf(),
            same_except_grants(*old(self), *final(self)),
            final(self).grants@.len() == old(self).grants@.len() + 1,
            final(self).grants@.subrange(0, old(self).grants@.len() as int) == old(self).grants@,
            final(self).grants@.last().driver_num == driver_num,
            final(self).grants@.last().upcalls@ == empty_upcalls(upcall_count as nat),
            final(self).grants@.last().allow_rw@ == empty_allows(allow_rw_count as nat),
            final(self).grants@.last().allow_ro@ == empty_allows(allow_ro_count as nat),
            final(self).has_grant(driver_num),
    {
        let mut upcalls: Vec<UpcallSlot> = Vec::new();
        let mut i: usize = 0;
        while i < upcall_count
            invariant
                i <= upcall_count,
                upcalls@ =~= empty_upcalls(upcall_count as nat).subrange(0, i as int),
            decreases upcall_count - i,
        {
            upcalls.push(UpcallSlot { fn_ptr: 0, appdata: 0 });
            i = i + 1;
        }
        let mut allow_rw: Vec<AllowSlot> = Vec::new();
        let mut j: usize = 0;
        while j < allow_rw_count
            invariant
                j <= allow_rw_count,
                allow_rw@ =~= empty_allows(allow_rw_count as nat).subrange(0, j as int),
            decreases allow_rw_count - j,
        {
            allow_rw.push(AllowSlot { ptr: 0, len: 0 });
            j = j + 1;
        }
        let mut allow_ro: Vec<AllowSlot> = Vec::new();
        let mut k: usize = 0;
        while k < allow_ro_count
            invariant
                k <= allow_ro_count,
                allow_ro@ =~= empty_allows(allow_ro_count as nat).subrange(0, k as int),
            decreases allow_ro_count - k,
        {
            allow_ro.push(AllowSlot { ptr: 0, len: 0 });
            k = k + 1;
        }
        assert(upcalls@ =~= empty_upcalls(upcall_count as nat));
        assert(allow_rw@ =~= empty_allows(allow_rw_count as nat));
        assert(allow_ro@ =~= empty_allows(allow_ro_count as nat));
        self.grants.push(GrantRegion { driver_num, upcalls, allow_rw, allow_ro });
        assert(final(self).grants@.subrange(0, old(self).grants@.len() as int) =~= old(
            self,
        ).grants@);
        assert(final(self).grants@[final(self).grants@.len() - 1].driver_num == driver_num);
    }

    /// Install the upcall `(fn_ptr, appdata)` for `(driver_num,
    /// subscribe_num)` and return the slot's previous contents. Fails with
    /// `NOMEM` when the grant is not allocated (the caller may allocate and
    /// retry) and with `NOSUPPORT` when the driver has no such subscribe
    /// slot; on failure nothing changes.
    pub fn subscribe_swap(
        &mut self,
        driver_num: usize,
        subscribe_num: usize,
        fn_ptr: usize,
        appdata: usize,
    ) -> (r: Result<UpcallSlot, ErrorCode>)
        requires
            old(self).wf(),
        ensures
            final(self).wf(),
            match r {
                Ok(prev) => upcall_swap_spec(
                    *old(self),
                    *final(self),
                    driver_num,
                    subscribe_num,
                    UpcallSlot { fn_ptr, appdata },
                    prev,
                ),
                Err(e) => *final(self) == *old(self) && ((e == ErrorCode::NOMEM && !old(
                    self,
                ).has_grant(driver_num)) || (e == ErrorCode::NOSUPPORT && old(self).has_grant(
                    driver_num,
                ) && !has_upcall_slot(*old(self), driver_num, subscribe_num))),
            },
    {
        match self.find_grant(driver_num) {
            None => Err(ErrorCode::NOMEM),
            Some(i) => {
                if subscribe_num >= self.grants[i].upcalls.len() {
                    assert(forall|j: int|
                        0 <= j < self.grants@.len() && self.grants@[j].driver_num == driver_num
                            ==> j == i as int);
                    Err(ErrorCode::NOSUPPORT)
                } else {
                    let prev: UpcallSlot;
                    {
                        let g = &mut self.grants[i];
                        prev = g.upcalls[subscribe_num];
                        g.upcalls[subscribe_num] = UpcallSlot { fn_ptr, appdata };
                    }
                    proof {
                        assert(upcall_swap_at(
                            *old(self),
                            *self,
                            driver_num,
                            subscribe_num,
                            UpcallSlot { fn_ptr, appdata },
                            prev,
                            i as int,
                        ));
                    }
                    Ok(prev)
                }
            },
        }
    }

    /// Lend `[ptr, ptr + len)` read-write to `(driver_num,
    /// subdriver_num)` and return the slot's previous contents. The caller
    /// has already validated the buffer. Fails with `NOMEM` when the grant
    /// is not allocated and `NOSUPPORT` when the driver has no such allow
    /// slot; on failure nothing changes.
    pub fn allow_rw_swap(&mut self, driver_num: usize, subdriver_num: usize, ptr: usize, len: usize) -> (r:
        Result<AllowSlot, ErrorCode>)
        requires
            old(self).wf(),
        ensures
            final(self).wf(),
            match r {
                Ok(prev) => allow_rw_swap_spec(
                    *old(self),
                    *final(self),
                    driver_num,
                    subdriver_num,
                    AllowSlot { ptr, len },
                    prev,
                ),
                Err(e) => *final(self) == *old(self) && ((e == ErrorCode::NOMEM && !old(
                    self,
                ).has_grant(driver_num)) || (e == ErrorCode::NOSUPPORT && old(self).has_grant(
                    driver_num,
                ) && !has_allow_rw_slot(*old(self), driver_num, subdriver_num))),
            },
    {
        match self.find_grant(driver_num) {
            None => Err(ErrorCode::NOMEM),
            Some(i) => {
                if subdriver_num >= self.grants[i].allow_rw.len() {
                    assert(forall|j: int|
                        0 <= j < self.grants@.len() && self.grants@[j].driver_num == driver_num
                            ==> j == i as int);
                    Err(ErrorCode::NOSUPPORT)
                } else {
                    let prev: AllowSlot;
                    {
                        let g = &mut self.grants[i];
                        prev = g.allow_rw[subdriver_num];
                        g.allow_rw[subdriver_num] = AllowSlot { ptr, len };
                    }
                    proof {
                        assert(allow_rw_swap_at(
                            *old(self),
                            *self,
                            driver_num,
                            subdriver_num,
                            AllowSlot { ptr, len },
                            prev,
                            i as int,
                        ));
                    }
                    Ok(prev)
                }
            },
        }
    }

    /// Lend `[ptr, ptr + len)` read-only to `(driver_num, subdriver_num)`
    /// and return the slot's previous contents, as `allow_rw_swap` does for
    /// read-write buffers.
    pub fn allow_ro_swap(&mut self, driver_num: usize, subdriver_num: usize, ptr: usize, len: usize) -> (r:
        Result<AllowSlot, ErrorCode>)
        requires
            old(self).wf(),
        ensures
            final(self).wf(),
            match r {
                Ok(prev) => allow_ro_swap_spec(
                    *old(self),
                    *final(self),
                    driver_num,
                    subdriver_num,
                    AllowSlot { ptr, len },
                    prev,
                ),
                Err(e) => *final(self) == *old(self) && ((e == ErrorCode::NOMEM && !old(
                    self,
                ).has_grant(driver_num)) || (e == ErrorCode::NOSUPPORT && old(self).has_grant(
                    driver_num,
                ) && !has_allow_ro_slot(*old(self), driver_num, subdriver_num))),
            },
    {
        match self.find_grant(driver_num) {
            None => Err(ErrorCode::NOMEM),
            Some(i) => {
                if subdriver_num >= self.grants[i].allow_ro.len() {
                    assert(forall|j: int|
                        0 <= j < self.grants@.len() && self.grants@[j].driver_num == driver_num
                            ==> j == i as int);
                    Err(ErrorCode::NOSUPPORT)
                } else {
                    let prev: AllowSlot;
                    {
                        let g = &mut self.grants[i];
                        prev = g.allow_ro[subdriver_num];
                        g.allow_ro[subdriver_num] = AllowSlot { ptr, len };
                    }
                    proof {
                        assert(allow_ro_swap_at(
                            *old(self),
                            *self,
                            driver_num,
                            subdriver_num,
                            AllowSlot { ptr, len },
                            prev,
                            i as int,
                        ));
                    }
                    Ok(prev)
                }
            },
        }
    }

    /// The read-write allow slot held for `(driver_num, subdriver_num)`, if
    /// the grant is allocated and the slot exists.
    pub fn get_allow_rw(&self, driver_num: usize, subdriver_num: usize) -> (r: Option<AllowSlot>)
        requires
            self.wf(),
        ensures
            match r {
                Some(slot) => exists|i: int|
                    0 <= i < self.grants@.len() && self.grants@[i].driver_num == driver_num
                        && subdriver_num < self.grants@[i].allow_rw@.len() && slot
                        == self.grants@[i].allow_rw@[subdriver_num as int],
                None => !exists|i: int|
                    0 <= i < self.grants@.len() && self.grants@[i].driver_num == driver_num
                        && subdriver_num < self.grants@[i].allow_rw@.len(),
            },
    {
        match self.find_grant(driver_num) {
            Some(i) => {
                if subdriver_num < self.grants[i].allow_rw.len() {
                    Some(self.grants[i].allow_rw[subdriver_num])
                } else {
                    assert(forall|j: int|
                        0 <= j < self.grants@.len() && self.grants@[j].driver_num == driver_num
                            ==> j == i as int);
                    None
                }
            },
            None => None,
        }
    }

    /// The read-only allow slot held for `(driver_num, subdriver_num)`, if
    /// the grant is allocated and the slot exists.
    pub fn get_allow_ro(&self, driver_num: usize, subdriver_num: usize) -> (r: Option<AllowSlot>)
        requires
            self.wf(),
        ensures
            match r {
                Some(slot) => exists|i: int|
                    0 <= i < self.grants@.len() && self.grants@[i].driver_num == driver_num
                        && subdriver_num < self.grants@[i].allow_ro@.len() && slot
                        == self.grants@[i].allow_ro@[subdriver_num as int],
                None => !exists|i: int|
                    0 <= i < self.grants@.len() && self.grants@[i].driver_num == driver_num
                        && subdriver_num < self.grants@[i].allow_ro@.len(),
            },
    {
        match self.find_grant(driver_num) {
            Some(i) => {
                if subdriver_num < self.grants[i].allow_ro.len() {
                    Some(self.grants[i].allow_ro[subdriver_num])
                } else {
                    assert(forall|j: int|
                        0 <= j < self.grants@.len() && self.grants@[j].driver_num == driver_num
                            ==> j == i as int);
                    None
                }
            },
            None => None,
        }
    }

    /// Purge every queued delivery of the upcall `id`, keeping all other
    /// tasks in order; returns how many tasks were removed. Called when a
    /// subscribe succeeds so that no pending delivery with the old function
    /// pointer survives.
    pub fn remove_upcall_tasks(&mut self, id: UpcallId) -> (n: usize)
        requires
            old(self).wf(),
        ensures
            final(self).wf(),
            *final(self) == (Process { tasks: final(self).tasks, ..*old(self) }),
            final(self).tasks@ == old(self).tasks@.filter(keeps_other_upcalls(id)),
            n == old(self).tasks@.len() - final(self).tasks@.len(),
            forall|k: int|
                0 <= k < final(self).tasks@.len() ==> !is_upcall_task(
                    #[trigger] final(self).tasks@[k],
                    id,
                ),
    {
        let mut kept: Vec<Task> = Vec::new();
        let mut i: usize = 0;
        while i < self.tasks.len()
            invariant
                *self == *old(self),
                old(self).wf(),
                i <= self.tasks@.len(),
                kept@ == self.tasks@.subrange(0, i as int).filter(keeps_other_upcalls(id)),
                kept@.len() <= i,
            decreases self.tasks@.len() - i,
        {
            let t = self.tasks[i];
            let keep: bool = match t {
                Task::FunctionCall(fc) => match fc.source {
                    FunctionCallSource::Driver(uid) => !(uid.driver_num == id.driver_num
                        && uid.subscribe_num == id.subscribe_num),
                    FunctionCallSource::Kernel => true,
                },
                Task::IPC(_, _) => true,
            };
            assert(keep == keeps_other_upcalls(id)(t));
            proof {
                reveal(Seq::filter);
                assert(self.tasks@.subrange(0, i + 1).drop_last() =~= self.tasks@.subrange(
                    0,
                    i as int,
                ));
                assert(self.tasks@.subrange(0, i + 1).last() == t);
            }
            if keep {
                kept.push(t);
            }
            i = i + 1;
        }
        assert(self.tasks@.subrange(0, self.tasks@.len() as int) =~= self.tasks@);
        let removed: usize = self.tasks.len() - kept.len();
        self.tasks = kept;
        proof {
            assert forall|k: int| 0 <= k < final(self).tasks@.len() implies !is_upcall_task(
                #[trigger] final(self).tasks@[k],
                id,
            ) by {
                old(self).tasks@.lemma_filter_pred(keeps_other_upcalls(id), k);
            }
        }
        removed
    }

    /// The upcall slot registered for `(driver_num, subscribe_num)`, if the
    /// grant is allocated and the slot exists.
    pub fn get_upcall(&self, driver_num: usize, subscribe_num: usize) -> (r: Option<UpcallSlot>)
        requires
            self.wf(),
        ensures
            match r {
                Some(slot) => exists|i: int|
                    0 <= i < self.grants@.len() && self.grants@[i].driver_num == driver_num
                        && subscribe_num < self.grants@[i].upcalls@.len() && slot
                        == self.grants@[i].upcalls@[subscribe_num as int],
                None => !exists|i: int|
                    0 <= i < self.grants@.len() && self.grants@[i].driver_num == driver_num
                        && subscribe_num < self.grants@[i].upcalls@.len(),
            },
    {
        match self.find_grant(driver_num) {
            Some(i) => {
                if subscribe_num < self.grants[i].upcalls.len() {
                    Some(self.grants[i].upcalls[subscribe_num])
                } else {
                    // Grants are unique per driver, so no other grant can
                    // hold this driver's slots.
                    assert(forall|j: int|
                        0 <= j < self.grants@.len() && self.grants@[j].driver_num == driver_num
                            ==> j == i as int);
                    None
                }
            },
            None => None,
        }
    }
}

/// Whether `p` has an allocated grant for `d` with an upcall slot `sub`.
pub open spec fn has_upcall_slot(p: Process, d: usize, sub: usize) -> bool {
    exists|i: int|
        0 <= i < p.grants@.len() && p.grants@[i].driver_num == d && sub
            < p.grants@[i].upcalls@.len()
}

/// The upcall registered for `(d, sub)`: the stored slot when it exists,
/// empty otherwise. An empty slot and an absent one read the same, so lazy
/// allocation does not change what this function observes.
pub open spec fn upcall_slot_of(p: Process, d: usize, sub: usize) -> UpcallSlot {
    if has_upcall_slot(p, d, sub) {
        let i = choose|i: int|
            0 <= i < p.grants@.len() && p.grants@[i].driver_num == d && sub
                < p.grants@[i].upcalls@.len();
        p.grants@[i].upcalls@[sub as int]
    } else {
        UpcallSlot { fn_ptr: 0, appdata: 0 }
    }
}

/// Whether `p` has an allocated grant for `d` with a read-write allow slot
/// `sub`.
pub open spec fn has_allow_rw_slot(p: Process, d: usize, sub: usize) -> bool {
    exists|i: int|
        0 <= i < p.grants@.len() && p.grants@[i].driver_num == d && sub
            < p.grants@[i].allow_rw@.len()
}

/// The read-write buffer lent at `(d, sub)`: the stored slot when it
/// exists, empty otherwise.
pub open spec fn allow_rw_slot_of(p: Process, d: usize, sub: usize) -> AllowSlot {
    if has_allow_rw_slot(p, d, sub) {
        let i = choose|i: int|
            0 <= i < p.grants@.len() && p.grants@[i].driver_num == d && sub
                < p.grants@[i].allow_rw@.len();
        p.grants@[i].allow_rw@[sub as int]
    } else {
        AllowSlot { ptr: 0, len: 0 }
    }
}

/// Whether `p` has an allocated grant for `d` with a read-only allow slot
/// `sub`.
pub open spec fn has_allow_ro_slot(p: Process, d: usize, sub: usize) -> bool {
    exists|i: int|
        0 <= i < p.grants@.len() && p.grants@[i].driver_num == d && sub
            < p.grants@[i].allow_ro@.len()
}

/// The read-only buffer lent at `(d, sub)`: the stored slot when it
/// exists, empty otherwise.
pub open spec fn allow_ro_slot_of(p: Process, d: usize, sub: usize) -> AllowSlot {
    if has_allow_ro_slot(p, d, sub) {
        let i = choose|i: int|
            0 <= i < p.grants@.len() && p.grants@[i].driver_num == d && sub
                < p.grants@[i].allow_ro@.len();
        p.grants@[i].allow_ro@[sub as int]
    } else {
        AllowSlot { ptr: 0, len: 0 }
    }
}


/// The unique grant index for `d` carrying an upcall slot `sub` reads as
/// `upcall_slot_of` says.
pub proof fn lemma_upcall_slot_of_at(p: Process, d: usize, sub: usize, i: int)
    requires
        p.wf(),
        0 <= i < p.grants@.len(),
        p.grants@[i].driver_num == d,
        sub < p.grants@[i].upcalls@.len(),
    ensures
        has_upcall_slot(p, d, sub),
        upcall_slot_of(p, d, sub) == p.grants@[i].upcalls@[sub as int],
{
    assert(has_upcall_slot(p, d, sub));
    let j = choose|j: int|
        0 <= j < p.grants@.len() && p.grants@[j].driver_num == d && sub
            < p.grants@[j].upcalls@.len();
    assert(j == i);
}

/// The unique grant index for `d` carrying a read-write allow slot `sub`
/// reads as `allow_rw_slot_of` says.
pub proof fn lemma_allow_rw_slot_of_at(p: Process, d: usize, sub: usize, i: int)
    requires
        p.wf(),
        0 <= i < p.grants@.len(),
        p.grants@[i].driver_num == d,
        sub < p.grants@[i].allow_rw@.len(),
    ensures
        has_allow_rw_slot(p, d, sub),
        allow_rw_slot_of(p, d, sub) == p.grants@[i].allow_rw@[sub as int],
{
    assert(has_allow_rw_slot(p, d, sub));
    let j = choose|j: int|
        0 <= j < p.grants@.len() && p.grants@[j].driver_num == d && sub
            < p.grants@[j].allow_rw@.len();
    assert(j == i);
}

/// The unique grant index for `d` carrying a read-only allow slot `sub`
/// reads as `allow_ro_slot_of` says.
pub proof fn lemma_allow_ro_slot_of_at(p: Process, d: usize, sub: usize, i: int)
    requires
        p.wf(),
        0 <= i < p.grants@.len(),
        p.grants@[i].driver_num == d,
        sub < p.grants@[i].allow_ro@.len(),
    ensures
        has_allow_ro_slot(p, d, sub),
        allow_ro_slot_of(p, d, sub) == p.grants@[i].allow_ro@[sub as int],
{
    assert(has_allow_ro_slot(p, d, sub));
    let j = choose|j: int|
        0 <= j < p.grants@.len() && p.grants@[j].driver_num == d && sub
            < p.grants@[j].allow_ro@.len();
    assert(j == i);
}

/// A well-formed process with work for the dispatcher is always in a
/// schedulable state: the unrunnable states hold no tasks, so readiness
/// can only arise from a state the dispatcher accepts.
pub proof fn lemma_ready_implies_schedulable(p: Process)
    requires
        p.wf(),
    ensures
        p.spec_ready() ==> state_is_schedulable(p.state),
{
}

/// Purging one upcall's deliveries introduces no IPC task: a queue free of
/// IPC tasks stays free of them.
pub proof fn lemma_filter_no_ipc(tasks: Seq<Task>, id: UpcallId)
    requires
        forall|k: int| 0 <= k < tasks.len() ==> !((#[trigger] tasks[k]) is IPC),
    ensures
        forall|k: int|
            0 <= k < tasks.filter(keeps_other_upcalls(id)).len() ==> !((#[trigger] tasks.filter(
                keeps_other_upcalls(id),
            )[k]) is IPC),
    decreases tasks.len(),
{
    reveal(Seq::filter);
    if tasks.len() > 0 {
        let prefix = tasks.drop_last();
        assert(forall|k: int| 0 <= k < prefix.len() ==> !((#[trigger] prefix[k]) is IPC));
        lemma_filter_no_ipc(prefix, id);
        assert(!(tasks.last() is IPC));
    }
}

/// Two well-formed processes with the same grant table read every slot the
/// same.
pub proof fn lemma_slots_same_grants(a: Process, b: Process)
    requires
        a.wf(),
        b.wf(),
        a.grants == b.grants,
    ensures
        forall|d2: usize, s2: usize|
            #![trigger upcall_slot_of(a, d2, s2)]
            #![trigger upcall_slot_of(b, d2, s2)]
            upcall_slot_of(a, d2, s2) == upcall_slot_of(b, d2, s2),
        forall|d2: usize, s2: usize|
            #![trigger allow_rw_slot_of(a, d2, s2)]
            #![trigger allow_rw_slot_of(b, d2, s2)]
            allow_rw_slot_of(a, d2, s2) == allow_rw_slot_of(b, d2, s2),
        forall|d2: usize, s2: usize|
            #![trigger allow_ro_slot_of(a, d2, s2)]
            #![trigger allow_ro_slot_of(b, d2, s2)]
            allow_ro_slot_of(a, d2, s2) == allow_ro_slot_of(b, d2, s2),
        forall|d2: usize, s2: usize|
            has_upcall_slot(a, d2, s2) == #[trigger] has_upcall_slot(b, d2, s2),
        forall|d2: usize, s2: usize|
            has_allow_rw_slot(a, d2, s2) == #[trigger] has_allow_rw_slot(b, d2, s2),
{
    assert forall|d2: usize, s2: usize|
        #![trigger upcall_slot_of(a, d2, s2)]
        #![trigger upcall_slot_of(b, d2, s2)]
        upcall_slot_of(a, d2, s2) == upcall_slot_of(b, d2, s2) by {
        if has_upcall_slot(a, d2, s2) {
            let j = choose|j: int|
                0 <= j < a.grants@.len() && a.grants@[j].driver_num == d2 && s2
                    < a.grants@[j].upcalls@.len();
            lemma_upcall_slot_of_at(a, d2, s2, j);
            lemma_upcall_slot_of_at(b, d2, s2, j);
        } else {
            assert(!has_upcall_slot(b, d2, s2));
        }
    }
    assert forall|d2: usize, s2: usize|
        #![trigger allow_rw_slot_of(a, d2, s2)]
        #![trigger allow_rw_slot_of(b, d2, s2)]
        allow_rw_slot_of(a, d2, s2) == allow_rw_slot_of(b, d2, s2) by {
        if has_allow_rw_slot(a, d2, s2) {
            let j = choose|j: int|
                0 <= j < a.grants@.len() && a.grants@[j].driver_num == d2 && s2
                    < a.grants@[j].allow_rw@.len();
            lemma_allow_rw_slot_of_at(a, d2, s2, j);
            lemma_allow_rw_slot_of_at(b, d2, s2, j);
        } else {
            assert(!has_allow_rw_slot(b, d2, s2));
        }
    }
    assert forall|d2: usize, s2: usize|
        #![trigger allow_ro_slot_of(a, d2, s2)]
        #![trigger allow_ro_slot_of(b, d2, s2)]
        allow_ro_slot_of(a, d2, s2) == allow_ro_slot_of(b, d2, s2) by {
        if has_allow_ro_slot(a, d2, s2) {
            let j = choose|j: int|
                0 <= j < a.grants@.len() && a.grants@[j].driver_num == d2 && s2
                    < a.grants@[j].allow_ro@.len();
            lemma_allow_ro_slot_of_at(a, d2, s2, j);
            lemma_allow_ro_slot_of_at(b, d2, s2, j);
        } else {
            assert(!has_allow_ro_slot(b, d2, s2));
        }
    }
    assert forall|d2: usize, s2: usize|
        has_upcall_slot(a, d2, s2) == #[trigger] has_upcall_slot(b, d2, s2) by {
        if has_upcall_slot(a, d2, s2) {
            assert(has_upcall_slot(b, d2, s2));
        } else if has_upcall_slot(b, d2, s2) {
            assert(has_upcall_slot(a, d2, s2));
        }
    }
    assert forall|d2: usize, s2: usize|
        has_allow_rw_slot(a, d2, s2) == #[trigger] has_allow_rw_slot(b, d2, s2) by {
        if has_allow_rw_slot(a, d2, s2) {
            assert(has_allow_rw_slot(b, d2, s2));
        } else if has_allow_rw_slot(b, d2, s2) {
            assert(has_allow_rw_slot(a, d2, s2));
        }
    }
}

/// In two processes whose grant tables agree everywhere except that index
/// `i` changed only its upcall slot `sub`, every slot observation other
/// than `(d, sub)` reads the same.
pub proof fn lemma_upcall_swap_observables(
    a: Process,
    b: Process,
    d: usize,
    sub: usize,
    newslot: UpcallSlot,
    prev: UpcallSlot,
)
    requires
        a.wf(),
        b.wf(),
        upcall_swap_spec(a, b, d, sub, newslot, prev),
    ensures
        has_upcall_slot(a, d, sub),
        prev == upcall_slot_of(a, d, sub),
        upcall_slot_of(b, d, sub) == newslot,
        forall|d2: usize, s2: usize|
            #![trigger upcall_slot_of(b, d2, s2)]
            #![trigger upcall_slot_of(a, d2, s2)]
            !(d2 == d && s2 == sub) ==> upcall_slot_of(b, d2, s2) == upcall_slot_of(a, d2, s2),
        forall|d2: usize, s2: usize|
            #![trigger allow_rw_slot_of(b, d2, s2)]
            #![trigger allow_rw_slot_of(a, d2, s2)]
            allow_rw_slot_of(b, d2, s2) == allow_rw_slot_of(a, d2, s2),
        forall|d2: usize, s2: usize|
            #![trigger allow_ro_slot_of(b, d2, s2)]
            #![trigger allow_ro_slot_of(a, d2, s2)]
            allow_ro_slot_of(b, d2, s2) == allow_ro_slot_of(a, d2, s2),
{
    let i = choose|i: int| upcall_swap_at(a, b, d, sub, newslot, prev, i);
    lemma_upcall_slot_of_at(a, d, sub, i);
    lemma_upcall_slot_of_at(b, d, sub, i);
    assert forall|d2: usize, s2: usize| !(d2 == d && s2 == sub) implies #[trigger] upcall_slot_of(
        b,
        d2,
        s2,
    ) == upcall_slot_of(a, d2, s2) by {
        if d2 == d {
            if s2 < a.grants@[i].upcalls@.len() {
                lemma_upcall_slot_of_at(a, d2, s2, i);
                lemma_upcall_slot_of_at(b, d2, s2, i);
            } else {
                assert(!has_upcall_slot(a, d2, s2)) by {
                    if has_upcall_slot(a, d2, s2) {
                        let j = choose|j: int|
                            0 <= j < a.grants@.len() && a.grants@[j].driver_num == d2 && s2
                                < a.grants@[j].upcalls@.len();
                        assert(j == i);
                    }
                }
                assert(!has_upcall_slot(b, d2, s2)) by {
                    if has_upcall_slot(b, d2, s2) {
                        let j = choose|j: int|
                            0 <= j < b.grants@.len() && b.grants@[j].driver_num == d2 && s2
                                < b.grants@[j].upcalls@.len();
                        assert(j == i);
                    }
                }
            }
        } else {
            if has_upcall_slot(a, d2, s2) {
                let j = choose|j: int|
                    0 <= j < a.grants@.len() && a.grants@[j].driver_num == d2 && s2
                        < a.grants@[j].upcalls@.len();
                assert(j != i);
                lemma_upcall_slot_of_at(a, d2, s2, j);
                lemma_upcall_slot_of_at(b, d2, s2, j);
            } else if has_upcall_slot(b, d2, s2) {
                let j = choose|j: int|
                    0 <= j < b.grants@.len() && b.grants@[j].driver_num == d2 && s2
                        < b.grants@[j].upcalls@.len();
                assert(j != i);
                assert(has_upcall_slot(a, d2, s2));
            }
        }
    }
    assert forall|d2: usize, s2: usize|
        #![trigger allow_rw_slot_of(b, d2, s2)]
        #![trigger allow_rw_slot_of(a, d2, s2)]
        allow_rw_slot_of(b, d2, s2) == allow_rw_slot_of(a, d2, s2) by {
        if has_allow_rw_slot(a, d2, s2) {
            let j = choose|j: int|
                0 <= j < a.grants@.len() && a.grants@[j].driver_num == d2 && s2
                    < a.grants@[j].allow_rw@.len();
            lemma_allow_rw_slot_of_at(a, d2, s2, j);
            lemma_allow_rw_slot_of_at(b, d2, s2, j);
        } else if has_allow_rw_slot(b, d2, s2) {
            let j = choose|j: int|
                0 <= j < b.grants@.len() && b.grants@[j].driver_num == d2 && s2
                    < b.grants@[j].allow_rw@.len();
            assert(has_allow_rw_slot(a, d2, s2));
        }
    }
    assert forall|d2: usize, s2: usize|
        #![trigger allow_ro_slot_of(b, d2, s2)]
        #![trigger allow_ro_slot_of(a, d2, s2)]
        allow_ro_slot_of(b, d2, s2) == allow_ro_slot_of(a, d2, s2) by {
        if has_allow_ro_slot(a, d2, s2) {
            let j = choose|j: int|
                0 <= j < a.grants@.len() && a.grants@[j].driver_num == d2 && s2
                    < a.grants@[j].allow_ro@.len();
            lemma_allow_ro_slot_of_at(a, d2, s2, j);
            lemma_allow_ro_slot_of_at(b, d2, s2, j);
        } else if has_allow_ro_slot(b, d2, s2) {
            let j = choose|j: int|
                0 <= j < b.grants@.len() && b.grants@[j].driver_num == d2 && s2
                    < b.grants@[j].allow_ro@.len();
            assert(has_allow_ro_slot(a, d2, s2));
        }
    }
}

/// As `lemma_upcall_swap_observables`, for a read-write allow swap.
pub proof fn lemma_allow_rw_swap_observables(
    a: Process,
    b: Process,
    d: usize,
    sub: usize,
    newslot: AllowSlot,
    prev: AllowSlot,
)
    requires
        a.wf(),
        b.wf(),
        allow_rw_swap_spec(a, b, d, sub, newslot, prev),
    ensures
        has_allow_rw_slot(a, d, sub),
        prev == allow_rw_slot_of(a, d, sub),
        allow_rw_slot_of(b, d, sub) == newslot,
        forall|d2: usize, s2: usize|
            #![trigger allow_rw_slot_of(b, d2, s2)]
            #![trigger allow_rw_slot_of(a, d2, s2)]
            !(d2 == d && s2 == sub) ==> allow_rw_slot_of(b, d2, s2) == allow_rw_slot_of(a, d2, s2),
        forall|d2: usize, s2: usize|
            #![trigger upcall_slot_of(b, d2, s2)]
            #![trigger upcall_slot_of(a, d2, s2)]
            upcall_slot_of(b, d2, s2) == upcall_slot_of(a, d2, s2),
        forall|d2: usize, s2: usize|
            #![trigger allow_ro_slot_of(b, d2, s2)]
            #![trigger allow_ro_slot_of(a, d2, s2)]
            allow_ro_slot_of(b, d2, s2) == allow_ro_slot_of(a, d2, s2),
{
    let i = choose|i: int| allow_rw_swap_at(a, b, d, sub, newslot, prev, i);
    lemma_allow_rw_slot_of_at(a, d, sub, i);
    lemma_allow_rw_slot_of_at(b, d, sub, i);
    assert forall|d2: usize, s2: usize| !(d2 == d && s2 == sub) implies #[trigger] allow_rw_slot_of(
        b,
        d2,
        s2,
    ) == allow_rw_slot_of(a, d2, s2) by {
        if d2 == d {
            if s2 < a.grants@[i].allow_rw@.len() {
                lemma_allow_rw_slot_of_at(a, d2, s2, i);
                lemma_allow_rw_slot_of_at(b, d2, s2, i);
            } else {
                assert(!has_allow_rw_slot(a, d2, s2)) by {
                    if has_allow_rw_slot(a, d2, s2) {
                        let j = choose|j: int|
                            0 <= j < a.grants@.len() && a.grants@[j].driver_num == d2 && s2
                                < a.grants@[j].allow_rw@.len();
                        assert(j == i);
                    }
                }
                assert(!has_allow_rw_slot(b, d2, s2)) by {
                    if has_allow_rw_slot(b, d2, s2) {
                        let j = choose|j: int|
                            0 <= j < b.grants@.len() && b.grants@[j].driver_num == d2 && s2
                                < b.grants@[j].allow_rw@.len();
                        assert(j == i);
                    }
                }
            }
        } else {
            if has_allow_rw_slot(a, d2, s2) {
                let j = choose|j: int|
                    0 <= j < a.grants@.len() && a.grants@[j].driver_num == d2 && s2
                        < a.grants@[j].allow_rw@.len();
                assert(j != i);
                lemma_allow_rw_slot_of_at(a, d2, s2, j);
                lemma_allow_rw_slot_of_at(b, d2, s2, j);
            } else if has_allow_rw_slot(b, d2, s2) {
                let j = choose|j: int|
                    0 <= j < b.grants@.len() && b.grants@[j].driver_num == d2 && s2
                        < b.grants@[j].allow_rw@.len();
                assert(j != i);
                assert(has_allow_rw_slot(a, d2, s2));
            }
        }
    }
    assert forall|d2: usize, s2: usize|
        #![trigger upcall_slot_of(b, d2, s2)]
        #![trigger upcall_slot_of(a, d2, s2)]
        upcall_slot_of(b, d2, s2) == upcall_slot_of(a, d2, s2) by {
        if has_upcall_slot(a, d2, s2) {
            let j = choose|j: int|
                0 <= j < a.grants@.len() && a.grants@[j].driver_num == d2 && s2
                    < a.grants@[j].upcalls@.len();
            lemma_upcall_slot_of_at(a, d2, s2, j);
            lemma_upcall_slot_of_at(b, d2, s2, j);
        } else if has_upcall_slot(b, d2, s2) {
            let j = choose|j: int|
                0 <= j < b.grants@.len() && b.grants@[j].driver_num == d2 && s2
                    < b.grants@[j].upcalls@.len();
            assert(has_upcall_slot(a, d2, s2));
        }
    }
    assert forall|d2: usize, s2: usize|
        #![trigger allow_ro_slot_of(b, d2, s2)]
        #![trigger allow_ro_slot_of(a, d2, s2)]
        allow_ro_slot_of(b, d2, s2) == allow_ro_slot_of(a, d2, s2) by {
        if has_allow_ro_slot(a, d2, s2) {
            let j = choose|j: int|
                0 <= j < a.grants@.len() && a.grants@[j].driver_num == d2 && s2
                    < a.grants@[j].allow_ro@.len();
            lemma_allow_ro_slot_of_at(a, d2, s2, j);
            lemma_allow_ro_slot_of_at(b, d2, s2, j);
        } else if has_allow_ro_slot(b, d2, s2) {
            let j = choose|j: int|
                0 <= j < b.grants@.len() && b.grants@[j].driver_num == d2 && s2
                    < b.grants@[j].allow_ro@.len();
            assert(has_allow_ro_slot(a, d2, s2));
        }
    }
}

/// As `lemma_upcall_swap_observables`, for a read-only allow swap.
pub proof fn lemma_allow_ro_swap_observables(
    a: Process,
    b: Process,
    d: usize,
    sub: usize,
    newslot: AllowSlot,
    prev: AllowSlot,
)
    requires
        a.wf(),
        b.wf(),
        allow_ro_swap_spec(a, b, d, sub, newslot, prev),
    ensures
        has_allow_ro_slot(a, d, sub),
        prev == allow_ro_slot_of(a, d, sub),
        allow_ro_slot_of(b, d, sub) == newslot,
        forall|d2: usize, s2: usize|
            #![trigger allow_ro_slot_of(b, d2, s2)]
            #![trigger allow_ro_slot_of(a, d2, s2)]
            !(d2 == d && s2 == sub) ==> allow_ro_slot_of(b, d2, s2) == allow_ro_slot_of(a, d2, s2),
        forall|d2: usize, s2: usize|
            #![trigger upcall_slot_of(b, d2, s2)]
            #![trigger upcall_slot_of(a, d2, s2)]
            upcall_slot_of(b, d2, s2) == upcall_slot_of(a, d2, s2),
        forall|d2: usize, s2: usize|
            #![trigger allow_rw_slot_of(b, d2, s2)]
            #![trigger allow_rw_slot_of(a, d2, s2)]
            allow_rw_slot_of(b, d2, s2) == allow_rw_slot_of(a, d2, s2),
{
    let i = choose|i: int| allow_ro_swap_at(a, b, d, sub, newslot, prev, i);
    lemma_allow_ro_slot_of_at(a, d, sub, i);
    lemma_allow_ro_slot_of_at(b, d, sub, i);
    assert forall|d2: usize, s2: usize| !(d2 == d && s2 == sub) implies #[trigger] allow_ro_slot_of(
        b,
        d2,
        s2,
    ) == allow_ro_slot_of(a, d2, s2) by {
        if d2 == d {
            if s2 < a.grants@[i].allow_ro@.len() {
                lemma_allow_ro_slot_of_at(a, d2, s2, i);
                lemma_allow_ro_slot_of_at(b, d2, s2, i);
            } else {
                assert(!has_allow_ro_slot(a, d2, s2)) by {
                    if has_allow_ro_slot(a, d2, s2) {
                        let j = choose|j: int|
                            0 <= j < a.grants@.len() && a.grants@[j].driver_num == d2 && s2
                                < a.grants@[j].allow_ro@.len();
                        assert(j == i);
                    }
                }
                assert(!has_allow_ro_slot(b, d2, s2)) by {
                    if has_allow_ro_slot(b, d2, s2) {
                        let j = choose|j: int|
                            0 <= j < b.grants@.len() && b.grants@[j].driver_num == d2 && s2
                                < b.grants@[j].allow_ro@.len();
                        assert(j == i);
                    }
                }
            }
        } else {
            if has_allow_ro_slot(a, d2, s2) {
                let j = choose|j: int|
                    0 <= j < a.grants@.len() && a.grants@[j].driver_num == d2 && s2
                        < a.grants@[j].allow_ro@.len();
                assert(j != i);
                lemma_allow_ro_slot_of_at(a, d2, s2, j);
                lemma_allow_ro_slot_of_at(b, d2, s2, j);
            } else if has_allow_ro_slot(b, d2, s2) {
                let j = choose|j: int|
                    0 <= j < b.grants@.len() && b.grants@[j].driver_num == d2 && s2
                        < b.grants@[j].allow_ro@.len();
                assert(j != i);
                assert(has_allow_ro_slot(a, d2, s2));
            }
        }
    }
    assert forall|d2: usize, s2: usize|
        #![trigger upcall_slot_of(b, d2, s2)]
        #![trigger upcall_slot_of(a, d2, s2)]
        upcall_slot_of(b, d2, s2) == upcall_slot_of(a, d2, s2) by {
        if has_upcall_slot(a, d2, s2) {
            let j = choose|j: int|
                0 <= j < a.grants@.len() && a.grants@[j].driver_num == d2 && s2
                    < a.grants@[j].upcalls@.len();
            lemma_upcall_slot_of_at(a, d2, s2, j);
            lemma_upcall_slot_of_at(b, d2, s2, j);
        } else if has_upcall_slot(b, d2, s2) {
            let j = choose|j: int|
                0 <= j < b.grants@.len() && b.grants@[j].driver_num == d2 && s2
                    < b.grants@[j].upcalls@.len();
            assert(has_upcall_slot(a, d2, s2));
        }
    }
    assert forall|d2: usize, s2: usize|
        #![trigger allow_rw_slot_of(b, d2, s2)]
        #![trigger allow_rw_slot_of(a, d2, s2)]
        allow_rw_slot_of(b, d2, s2) == allow_rw_slot_of(a, d2, s2) by {
        if has_allow_rw_slot(a, d2, s2) {
            let j = choose|j: int|
                0 <= j < a.grants@.len() && a.grants@[j].driver_num == d2 && s2
                    < a.grants@[j].allow_rw@.len();
            lemma_allow_rw_slot_of_at(a, d2, s2, j);
            lemma_allow_rw_slot_of_at(b, d2, s2, j);
        } else if has_allow_rw_slot(b, d2, s2) {
            let j = choose|j: int|
                0 <= j < b.grants@.len() && b.grants@[j].driver_num == d2 && s2
                    < b.grants@[j].allow_rw@.len();
            assert(has_allow_rw_slot(a, d2, s2));
        }
    }
}

} // verus!
