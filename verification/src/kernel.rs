//! The kernel object: the process table, the work counter, grant
//! registration, process lookup and iteration, and credential bookkeeping.
//!
//! The kernel maintains one central accounting invariant: its work counter
//! equals the work pending across all processes (queued tasks, plus one
//! unit for each process that is Running or awaiting admission) plus
//! whatever external process implementations have registered through the
//! capability-gated counters. `processes_blocked` — the scheduler's sleep
//! test — therefore answers `true` only when no process has anything left
//! to do.

use vstd::prelude::*;

use crate::errorcode::ErrorCode;
use crate::platform::ExternalProcessCapability;
use crate::platform::MemoryAllocationCapability;
use crate::platform::ProcessApprovalCapability;
use crate::platform::ProcessManagementCapability;
use crate::process::Process;
use crate::process::ProcessId;
use crate::process::ShortID;
use crate::process::State;
use crate::process::Task;
use crate::process::AllowSlot;
use crate::process::FunctionCall;
use crate::process::FunctionCallSource;
use crate::process::state_is_schedulable;
use crate::process::UpcallId;
use crate::process::UpcallSlot;
use crate::process::allow_ro_slot_of;
use crate::process::allow_rw_slot_of;
use crate::process::has_allow_ro_slot;
use crate::process::has_allow_rw_slot;
use crate::process::has_upcall_slot;
use crate::process::is_upcall_task;
use crate::process::keeps_other_upcalls;
use crate::process::lemma_allow_ro_slot_of_at;
use crate::process::lemma_allow_ro_swap_observables;
use crate::process::lemma_allow_rw_slot_of_at;
use crate::process::lemma_allow_rw_swap_observables;
use crate::process::lemma_filter_no_ipc;
use crate::process::lemma_slots_same_grants;
use crate::process::lemma_upcall_slot_of_at;
use crate::process::lemma_upcall_swap_observables;
use crate::process::upcall_slot_of;
use crate::process::empty_allows;
use crate::process::empty_upcalls;
use crate::process::same_except_grants;
use crate::process::state_is_unrunnable;
use crate::platform::Chip;
use crate::platform::ContextSwitchCallback;
use crate::platform::DriverTable;
use crate::platform::IpcService;
use crate::platform::KernelResources;
use crate::platform::MainLoopCapability;
use crate::platform::SchedulingDecision;
use crate::platform::ProcessFault;
use crate::platform::Scheduler;
use crate::platform::SchedulerTimer;
use crate::platform::SyscallFilter;
use crate::platform::WatchDog;
use crate::syscall::Syscall;
use crate::syscall::ContextSwitchReason;
use crate::syscall::SyscallReturn;
use crate::MIN_QUANTA_THRESHOLD_US;
use crate::tbf::TbfFooterV2Credentials;
use vstd::pervasive::unreached;

verus! {

/// Why the dispatcher returned a process to the scheduler.
#[derive(Clone, Copy, Debug, PartialEq, Eq, Structural)]
pub enum StoppedExecutingReason {
    /// The process is no longer ready to run.
    NoWorkLeft,
    /// The process faulted and was not restarted.
    StoppedFaulted,
    /// The kernel stopped the process.
    Stopped,
    /// The process's timeslice expired.
    TimesliceExpired,
    /// The kernel preempted the process: kernel work became ready or the
    /// scheduler withdrew its decision.
    KernelPreemption,
}

/// The slot layout a driver registered for its grant: how many upcall and
/// allow slots each process's grant region carries.
#[derive(Clone, Copy, Debug, PartialEq, Eq, Structural)]
pub struct GrantLayout {
    /// The driver the grant belongs to.
    pub driver_num: usize,
    /// Position in the order of registration.
    pub grant_index: usize,
    /// Number of upcall (subscribe) slots.
    pub upcall_count: usize,
    /// Number of read-write allow slots.
    pub allow_rw_count: usize,
    /// Number of read-only allow slots.
    pub allow_ro_count: usize,
}

/// Handle returned by grant creation, identifying the registered grant.
#[derive(Clone, Copy, Debug, PartialEq, Eq, Structural)]
pub struct Grant {
    /// The driver the grant belongs to.
    pub driver_num: usize,
    /// Position in the order of registration.
    pub grant_index: usize,
}

/// Work one table slot accounts for.
pub open spec fn slot_work(s: Option<Process>) -> nat {
    match s {
        Some(p) => p.pending_work(),
        None => 0nat,
    }
}

/// Work accounted for by the first `n` slots of the table.
pub open spec fn total_work_prefix(s: Seq<Option<Process>>, n: int) -> nat
    decreases n,
{
    if n <= 0 {
        0nat
    } else {
        total_work_prefix(s, n - 1) + slot_work(s[n - 1])
    }
}

/// Work pending across the whole process table.
pub open spec fn total_work(s: Seq<Option<Process>>) -> nat {
    total_work_prefix(s, s.len() as int)
}

/// Every filled slot holds a well-formed process that knows its own index
/// and carries an identifier below the kernel's generation counter.
pub open spec fn wf_process_table(s: Seq<Option<Process>>, idmax: nat) -> bool {
    forall|i: int|
        0 <= i < s.len() && s[i] is Some ==> ((#[trigger] s[i])->0).wf() && (s[i]->0).index == i
            && (s[i]->0).id < idmax
}

/// Whether `pid` names the process currently in its slot: the slot is
/// filled and the stored generation identifier matches.
pub open spec fn spec_processid_valid(s: Seq<Option<Process>>, pid: ProcessId) -> bool {
    &&& pid.index < s.len()
    &&& s[pid.index as int] is Some
    &&& (s[pid.index as int]->0).id == pid.id
}

/// Changing the first `n` slots only at `i` shifts the prefix work by the
/// difference between the old and new slot.
proof fn lemma_total_work_prefix_update(s: Seq<Option<Process>>, i: int, v: Option<Process>, n: int)
    requires
        0 <= i < s.len(),
        n <= s.len(),
    ensures
        i < n ==> total_work_prefix(s.update(i, v), n) + slot_work(s[i]) == total_work_prefix(s, n)
            + slot_work(v),
        i >= n ==> total_work_prefix(s.update(i, v), n) == total_work_prefix(s, n),
    decreases n,
{
    if n > 0 {
        lemma_total_work_prefix_update(s, i, v, n - 1);
    }
}

/// Replacing the slot `i` shifts the total work by the difference between
/// the old and new slot.
pub proof fn lemma_total_work_update(s: Seq<Option<Process>>, i: int, v: Option<Process>)
    requires
        0 <= i < s.len(),
    ensures
        total_work(s.update(i, v)) + slot_work(s[i]) == total_work(s) + slot_work(v),
{
    lemma_total_work_prefix_update(s, i, v, s.len() as int);
}

/// A prefix of the table never accounts for more work than a longer one.
proof fn lemma_total_work_prefix_mono(s: Seq<Option<Process>>, m: int, n: int)
    requires
        0 <= m <= n <= s.len(),
    ensures
        total_work_prefix(s, m) <= total_work_prefix(s, n),
    decreases n,
{
    if m < n {
        lemma_total_work_prefix_mono(s, m, n - 1);
    }
}

/// The table's total work covers the work of each single slot.
pub proof fn lemma_total_work_ge_slot(s: Seq<Option<Process>>, i: int)
    requires
        0 <= i < s.len(),
    ensures
        total_work(s) >= slot_work(s[i]),
{
    lemma_total_work_prefix_mono(s, i + 1, s.len() as int);
}

/// Main object of the kernel. A board creates one at initialization from
/// its loaded process table.
pub struct Kernel {
    /// Outstanding to-do items: queued tasks plus Running and
    /// admission-pending processes, plus externally registered work.
    work: usize,
    /// Work registered by external process implementations through the
    /// capability-gated counters.
    external_work: Ghost<nat>,
    /// The process table. Slot positions are stable; a slot may be empty.
    processes: Vec<Option<Process>>,
    /// Generation counter: how many process identifiers were handed out.
    process_identifier_max: usize,
    /// How many grants have been registered.
    grant_counter: usize,
    /// Set once processes are materialized; no further grant may be
    /// registered afterwards.
    grants_finalized: bool,
    /// The registered grant layouts, in registration order.
    grant_layouts: Vec<GrantLayout>,
}

impl Kernel {
    /// The work counter.
    pub closed spec fn spec_work(self) -> nat {
        self.work as nat
    }

    /// Work registered through the external, capability-gated counters.
    pub closed spec fn spec_external_work(self) -> nat {
        self.external_work@
    }

    /// The process table.
    pub closed spec fn spec_processes(self) -> Seq<Option<Process>> {
        self.processes@
    }

    /// Number of slots in the process table.
    pub open spec fn spec_process_count(self) -> nat {
        self.spec_processes().len()
    }

    /// The process in slot `i`.
    pub open spec fn spec_process_at(self, i: int) -> Option<Process> {
        self.spec_processes()[i]
    }

    /// Whether grants have been finalized.
    pub closed spec fn spec_grants_finalized(self) -> bool {
        self.grants_finalized
    }

    /// How many grants have been registered.
    pub closed spec fn spec_grant_count(self) -> nat {
        self.grant_counter as nat
    }

    /// The registered grant layouts.
    pub closed spec fn spec_grant_layouts(self) -> Seq<GrantLayout> {
        self.grant_layouts@
    }

    /// The generation counter for process identifiers.
    pub closed spec fn spec_identifier_max(self) -> nat {
        self.process_identifier_max as nat
    }

    /// The kernel's central invariant: the work counter accounts exactly
    /// for the table's pending work plus external work, the table is
    /// well-formed, and the grant registry is consistent.
    pub closed spec fn wf(self) -> bool {
        &&& self.work == total_work(self.processes@) + self.external_work@
        &&& wf_process_table(self.processes@, self.process_identifier_max as nat)
        &&& self.grant_counter == self.grant_layouts@.len()
        &&& forall|i: int|
            0 <= i < self.grant_layouts@.len() ==> (#[trigger] self.grant_layouts@[i]).grant_index
                == i
    }

    /// The kernel's grant registry and generation counter are unchanged.
    pub open spec fn same_registry(a: Kernel, b: Kernel) -> bool {
        &&& b.spec_grants_finalized() == a.spec_grants_finalized()
        &&& b.spec_grant_count() == a.spec_grant_count()
        &&& b.spec_grant_layouts() == a.spec_grant_layouts()
        &&& b.spec_identifier_max() == a.spec_identifier_max()
        &&& b.spec_external_work() == a.spec_external_work()
    }

    /// Create the kernel from the board's loaded process table. Each filled
    /// slot must hold a well-formed process that knows its slot index.
    pub fn new(processes: Vec<Option<Process>>) -> (k: Kernel)
        requires
            forall|i: int|
                0 <= i < processes@.len() && processes@[i] is Some ==> ((
                #[trigger] processes@[i])->0).wf() && (processes@[i]->0).index == i && (
                processes@[i]->0).id < usize::MAX,
            total_work(processes@) <= usize::MAX,
        ensures
            k.wf(),
            k.spec_processes() == processes@,
            k.spec_work() == total_work(processes@),
            k.spec_external_work() == 0,
            !k.spec_grants_finalized(),
            k.spec_grant_count() == 0,
            k.spec_grant_layouts().len() == 0,
            forall|i: int|
                0 <= i < processes@.len() && (#[trigger] processes@[i]) is Some ==> (processes@[i]
                    ->0).id < k.spec_identifier_max(),
            processes@.len() == 0 ==> k.spec_identifier_max() == 0,
    {
        // One pass to compute the initial work and a generation counter
        // above every identifier already in use.
        let mut work: usize = 0;
        let mut idmax: usize = 0;
        let mut i: usize = 0;
        while i < processes.len()
            invariant
                i <= processes@.len(),
                forall|j: int|
                    0 <= j < processes@.len() && processes@[j] is Some ==> ((
                    #[trigger] processes@[j])->0).wf() && (processes@[j]->0).index == j && (
                    processes@[j]->0).id < usize::MAX,
                total_work(processes@) <= usize::MAX,
                work == total_work_prefix(processes@, i as int),
                forall|j: int|
                    0 <= j < i && processes@[j] is Some ==> ((#[trigger] processes@[j])->0).id
                        < idmax,
                processes@.len() == 0 ==> idmax == 0,
            decreases processes@.len() - i,
        {
            proof {
                lemma_total_work_prefix_mono(processes@, i + 1, processes@.len() as int);
            }
            match &processes[i] {
                Some(p) => {
                    let extra: usize = match p.state {
                        State::Running => 1,
                        State::CredentialsApproved => 1,
                        _ => 0,
                    };
                    work = work + p.tasks.len() + extra;
                    if p.id >= idmax {
                        idmax = p.id + 1;
                    }
                },
                None => {},
            }
            i = i + 1;
        }
        Kernel {
            work,
            external_work: Ghost(0nat),
            processes,
            process_identifier_max: idmax,
            grant_counter: 0,
            grants_finalized: false,
            grant_layouts: Vec::new(),
        }
    }

    /// The current value of the work counter.
    pub fn work_count(&self) -> (r: usize)
        ensures
            r == self.spec_work(),
    {
        self.work
    }

    /// Number of slots in the process table.
    pub fn process_count(&self) -> (r: usize)
        ensures
            r == self.spec_process_count(),
    {
        self.processes.len()
    }

    /// Read access to the process in slot `index`. A process handed out is
    /// well-formed whenever the kernel itself is.
    pub fn process_ref(&self, index: usize) -> (r: Option<&Process>)
        requires
            index < self.spec_process_count(),
        ensures
            match r {
                Some(p) => self.spec_process_at(index as int) == Some(*p) && (self.wf()
                    ==> p.wf() && p.index == index),
                None => self.spec_process_at(index as int) is None,
            },
    {
        match &self.processes[index] {
            Some(p) => Some(p),
            None => None,
        }
    }

    /// Mutable access to the filled slot `i`; the caller restores the work
    /// accounting afterwards.
    fn proc_mut(&mut self, i: usize) -> (p: &mut Process)
        requires
            i < old(self).processes@.len(),
            old(self).processes@[i as int] is Some,
        ensures
            *p == old(self).processes@[i as int]->0,
            final(self).processes@ == old(self).processes@.update(i as int, Some(*final(p))),
            final(self).work == old(self).work,
            final(self).external_work == old(self).external_work,
            final(self).process_identifier_max == old(self).process_identifier_max,
            final(self).grant_counter == old(self).grant_counter,
            final(self).grants_finalized == old(self).grants_finalized,
            final(self).grant_layouts == old(self).grant_layouts,
    {
        match &mut self.processes[i] {
            Some(p) => p,
            None => unreached(),
        }
    }

    /// Something was scheduled for a process: one more unit of work.
    fn increment_work(&mut self)
        requires
            old(self).work < usize::MAX,
        ensures
            *final(self) == (Kernel { work: final(self).work, ..*old(self) }),
            final(self).work == old(self).work + 1,
    {
        self.work = self.work + 1;
    }

    /// Something finished for a process: one unit of work done.
    fn decrement_work(&mut self)
        requires
            old(self).work > 0,
        ensures
            *final(self) == (Kernel { work: final(self).work, ..*old(self) }),
            final(self).work == old(self).work - 1,
    {
        self.work = self.work - 1;
    }

    /// Register one unit of work for an externally implemented process.
    /// Restricted by a capability.
    pub fn increment_work_external<CAP: ExternalProcessCapability>(&mut self, _capability: &CAP)
        requires
            old(self).wf(),
            old(self).spec_work() < usize::MAX,
        ensures
            final(self).wf(),
            final(self).spec_processes() == old(self).spec_processes(),
            final(self).spec_work() == old(self).spec_work() + 1,
            final(self).spec_external_work() == old(self).spec_external_work() + 1,
            final(self).spec_grants_finalized() == old(self).spec_grants_finalized(),
            final(self).spec_grant_count() == old(self).spec_grant_count(),
            final(self).spec_grant_layouts() == old(self).spec_grant_layouts(),
            final(self).spec_identifier_max() == old(self).spec_identifier_max(),
    {
        self.work = self.work + 1;
        self.external_work = Ghost(self.external_work@ + 1);
    }

    /// Retire one unit of externally registered work. Restricted by a
    /// capability; only work registered through `increment_work_external`
    /// may be retired here.
    pub fn decrement_work_external<CAP: ExternalProcessCapability>(&mut self, _capability: &CAP)
        requires
            old(self).wf(),
            old(self).spec_external_work() > 0,
        ensures
            final(self).wf(),
            final(self).spec_processes() == old(self).spec_processes(),
            final(self).spec_work() == old(self).spec_work() - 1,
            final(self).spec_external_work() == old(self).spec_external_work() - 1,
            final(self).spec_grants_finalized() == old(self).spec_grants_finalized(),
            final(self).spec_grant_count() == old(self).spec_grant_count(),
            final(self).spec_grant_layouts() == old(self).spec_grant_layouts(),
            final(self).spec_identifier_max() == old(self).spec_identifier_max(),
    {
        self.work = self.work - 1;
        self.external_work = Ghost((self.external_work@ - 1) as nat);
    }

    /// Whether no process has anything to do, so the chip may sleep.
    pub fn processes_blocked(&self) -> (r: bool)
        ensures
            r == (self.spec_work() == 0),
    {
        self.work == 0
    }

    /// Whether `processid` still names the process in its slot. A restarted
    /// or relocated process carries a different generation identifier, so
    /// stale identifiers are rejected.
    pub fn processid_is_valid(&self, processid: &ProcessId) -> (r: bool)
        ensures
            r == spec_processid_valid(self.spec_processes(), *processid),
    {
        if processid.index < self.processes.len() {
            match &self.processes[processid.index] {
                Some(p) => p.id == processid.id,
                None => false,
            }
        } else {
            false
        }
    }

    /// Look up a process by identifier: the slot must be filled and the
    /// stored generation identifier must match.
    pub fn get_process(&self, processid: ProcessId) -> (r: Option<&Process>)
        ensures
            match r {
                Some(p) => spec_processid_valid(self.spec_processes(), processid) && Some(*p)
                    == self.spec_process_at(processid.index as int),
                None => !spec_processid_valid(self.spec_processes(), processid),
            },
    {
        if processid.index < self.processes.len() {
            match &self.processes[processid.index] {
                Some(p) => {
                    if p.id == processid.id {
                        Some(p)
                    } else {
                        None
                    }
                },
                None => None,
            }
        } else {
            None
        }
    }

    /// Run a closure on the process named by `processid`, if the identifier
    /// is still valid; otherwise return `default`. No match is found when
    /// the slot is empty, the process was restarted (fresh identifier), or
    /// it moved to another slot.
    pub fn process_map_or<R, F: FnOnce(&Process) -> R>(
        &self,
        default: R,
        processid: ProcessId,
        closure: F,
    ) -> (r: R)
        requires
            spec_processid_valid(self.spec_processes(), processid) ==> call_requires(
                closure,
                (&(self.spec_processes()[processid.index as int]->0),),
            ),
        ensures
            !spec_processid_valid(self.spec_processes(), processid) ==> r == default,
            spec_processid_valid(self.spec_processes(), processid) ==> call_ensures(
                closure,
                (&(self.spec_processes()[processid.index as int]->0),),
                r,
            ),
    {
        match self.get_process(processid) {
            Some(process) => closure(process),
            None => default,
        }
    }

    /// As `process_map_or`, for callers outside the kernel; restricted by a
    /// capability.
    pub fn process_map_or_external<R, F: FnOnce(&Process) -> R, CAP: ProcessManagementCapability>(
        &self,
        default: R,
        processid: ProcessId,
        closure: F,
        _capability: &CAP,
    ) -> (r: R)
        requires
            spec_processid_valid(self.spec_processes(), processid) ==> call_requires(
                closure,
                (&(self.spec_processes()[processid.index as int]->0),),
            ),
        ensures
            !spec_processid_valid(self.spec_processes(), processid) ==> r == default,
            spec_processid_valid(self.spec_processes(), processid) ==> call_ensures(
                closure,
                (&(self.spec_processes()[processid.index as int]->0),),
                r,
            ),
    {
        match self.get_process(processid) {
            Some(process) => closure(process),
            None => default,
        }
    }

    /// Run a closure on every loaded process.
    pub fn process_each<F: Fn(&Process)>(&self, closure: F)
        requires
            forall|i: int|
                0 <= i < self.spec_process_count() && self.spec_process_at(i) is Some
                    ==> call_requires(closure, (&((#[trigger] self.spec_process_at(i))->0),)),
    {
        let mut i: usize = 0;
        while i < self.processes.len()
            invariant
                i <= self.spec_process_count(),
                forall|j: int|
                    0 <= j < self.spec_process_count() && self.spec_process_at(j) is Some
                        ==> call_requires(closure, (&((#[trigger] self.spec_process_at(j))->0),)),
            decreases self.spec_process_count() - i,
        {
            match &self.processes[i] {
                Some(p) => {
                    proof {
                        assert(call_requires(
                            closure,
                            (&(self.spec_process_at(i as int)->0),),
                        ));
                    }
                    closure(p);
                },
                None => {},
            }
            i = i + 1;
        }
    }

    /// As `process_each`, for callers outside the kernel; restricted by a
    /// capability.
    pub fn process_each_capability<F: Fn(&Process), CAP: ProcessManagementCapability>(
        &self,
        _capability: &CAP,
        closure: F,
    )
        requires
            forall|i: int|
                0 <= i < self.spec_process_count() && self.spec_process_at(i) is Some
                    ==> call_requires(closure, (&((#[trigger] self.spec_process_at(i))->0),)),
    {
        self.process_each(closure);
    }

    /// Run a closure on every loaded process, in table order, until it
    /// returns a value: iteration stops at the first non-`None` result,
    /// which is returned — the closure answered `None` on every earlier
    /// loaded process.
    pub fn process_until<R, F: Fn(&Process) -> Option<R>>(&self, closure: F) -> (r: Option<R>)
        requires
            forall|i: int|
                0 <= i < self.spec_process_count() && self.spec_process_at(i) is Some
                    ==> call_requires(closure, (&((#[trigger] self.spec_process_at(i))->0),)),
        ensures
            r is Some ==> exists|i: int|
                0 <= i < self.spec_process_count() && (#[trigger] self.spec_process_at(i)) is Some
                    && call_ensures(closure, (&(self.spec_process_at(i)->0),), r) && (forall|j: int|
                    0 <= j < i && (#[trigger] self.spec_process_at(j)) is Some ==> call_ensures(
                        closure,
                        (&(self.spec_process_at(j)->0),),
                        None::<R>,
                    )),
            r is None ==> forall|i: int|
                0 <= i < self.spec_process_count() && (#[trigger] self.spec_process_at(i)) is Some
                    ==> call_ensures(closure, (&(self.spec_process_at(i)->0),), None::<R>),
    {
        let mut i: usize = 0;
        while i < self.processes.len()
            invariant
                i <= self.spec_process_count(),
                forall|j: int|
                    0 <= j < self.spec_process_count() && self.spec_process_at(j) is Some
                        ==> call_requires(closure, (&((#[trigger] self.spec_process_at(j))->0),)),
                forall|j: int|
                    0 <= j < i && (#[trigger] self.spec_process_at(j)) is Some ==> call_ensures(
                        closure,
                        (&(self.spec_process_at(j)->0),),
                        None::<R>,
                    ),
            decreases self.spec_process_count() - i,
        {
            match &self.processes[i] {
                Some(p) => {
                    proof {
                        assert(call_requires(
                            closure,
                            (&(self.spec_process_at(i as int)->0),),
                        ));
                    }
                    let ret = closure(p);
                    if ret.is_some() {
                        proof {
                            assert(self.spec_process_at(i as int) is Some && call_ensures(
                                closure,
                                (&(self.spec_process_at(i as int)->0),),
                                ret,
                            ));
                        }
                        return ret;
                    }
                    proof {
                        assert(call_ensures(
                            closure,
                            (&(self.spec_process_at(i as int)->0),),
                            None::<R>,
                        ));
                    }
                },
                None => {},
            }
            i = i + 1;
        }
        None
    }

    /// Create a new unique identifier for a process.
    fn create_process_identifier(&mut self) -> (r: usize)
        requires
            old(self).process_identifier_max < usize::MAX,
        ensures
            *final(self) == (Kernel {
                process_identifier_max: final(self).process_identifier_max,
                ..*old(self)
            }),
            r == old(self).process_identifier_max,
            final(self).process_identifier_max == old(self).process_identifier_max + 1,
    {
        let r = self.process_identifier_max;
        self.process_identifier_max = self.process_identifier_max + 1;
        r
    }

    /// Register a new grant for `driver_num` with the given slot counts.
    /// Restricted to board initialization by a capability, and only before
    /// grants are finalized: afterwards process memory layouts are fixed
    /// and registering another grant would invalidate them, so the caller
    /// must never attempt it.
    pub fn create_grant<CAP: MemoryAllocationCapability>(
        &mut self,
        driver_num: usize,
        upcall_count: usize,
        allow_rw_count: usize,
        allow_ro_count: usize,
        _capability: &CAP,
    ) -> (g: Grant)
        requires
            old(self).wf(),
            !old(self).spec_grants_finalized(),
            old(self).spec_grant_count() < usize::MAX,
        ensures
            final(self).wf(),
            final(self).spec_processes() == old(self).spec_processes(),
            final(self).spec_work() == old(self).spec_work(),
            final(self).spec_external_work() == old(self).spec_external_work(),
            !final(self).spec_grants_finalized(),
            final(self).spec_grant_count() == old(self).spec_grant_count() + 1,
            final(self).spec_identifier_max() == old(self).spec_identifier_max(),
            g == (Grant { driver_num, grant_index: old(self).spec_grant_count() as usize }),
            final(self).spec_grant_layouts() == old(self).spec_grant_layouts().push(
                GrantLayout {
                    driver_num,
                    grant_index: g.grant_index,
                    upcall_count,
                    allow_rw_count,
                    allow_ro_count,
                },
            ),
    {
        let grant_index = self.grant_counter;
        self.grant_counter = self.grant_counter + 1;
        self.grant_layouts.push(
            GrantLayout { driver_num, grant_index, upcall_count, allow_rw_count, allow_ro_count },
        );
        Grant { driver_num, grant_index }
    }

    /// Mark the grant registry immutable and return how many grants were
    /// registered. Called when processes are materialized, since their
    /// memory layout depends on the final number of grants. Finalization is
    /// one-way: no operation of the kernel clears it.
    pub fn get_grant_count_and_finalize(&mut self) -> (r: usize)
        requires
            old(self).wf(),
        ensures
            final(self).wf(),
            final(self).spec_processes() == old(self).spec_processes(),
            final(self).spec_work() == old(self).spec_work(),
            final(self).spec_external_work() == old(self).spec_external_work(),
            final(self).spec_grants_finalized(),
            final(self).spec_grant_count() == old(self).spec_grant_count(),
            final(self).spec_grant_layouts() == old(self).spec_grant_layouts(),
            final(self).spec_identifier_max() == old(self).spec_identifier_max(),
            r == old(self).spec_grant_count(),
    {
        self.grants_finalized = true;
        self.grant_counter
    }

    /// As `get_grant_count_and_finalize`, for external process
    /// implementations; restricted by a capability.
    pub fn get_grant_count_and_finalize_external<CAP: ExternalProcessCapability>(
        &mut self,
        _capability: &CAP,
    ) -> (r: usize)
        requires
            old(self).wf(),
        ensures
            final(self).wf(),
            final(self).spec_processes() == old(self).spec_processes(),
            final(self).spec_work() == old(self).spec_work(),
            final(self).spec_external_work() == old(self).spec_external_work(),
            final(self).spec_grants_finalized(),
            final(self).spec_grant_count() == old(self).spec_grant_count(),
            final(self).spec_grant_layouts() == old(self).spec_grant_layouts(),
            final(self).spec_identifier_max() == old(self).spec_identifier_max(),
            r == old(self).spec_grant_count(),
    {
        self.get_grant_count_and_finalize()
    }

    /// Whether grants have been finalized.
    pub fn grants_are_finalized(&self) -> (r: bool)
        ensures
            r == self.spec_grants_finalized(),
    {
        self.grants_finalized
    }

    /// Queue a task for the named process; fails when the identifier is
    /// stale or the process can no longer accept work. Capsules deliver
    /// upcalls and IPC notifications through this.
    pub fn enqueue_task(&mut self, processid: ProcessId, task: Task) -> (r: Result<(), ErrorCode>)
        requires
            old(self).wf(),
            old(self).spec_work() < usize::MAX,
        ensures
            final(self).wf(),
            Kernel::same_registry(*old(self), *final(self)),
            match r {
                Ok(()) => {
                    let i = processid.index as int;
                    let oldp = old(self).spec_processes()[i]->0;
                    &&& spec_processid_valid(old(self).spec_processes(), processid)
                    &&& !state_is_unrunnable(oldp.state)
                    &&& final(self).spec_processes() == old(self).spec_processes().update(
                        i,
                        Some(Process { tasks: (final(self).spec_processes()[i]->0).tasks, ..oldp }),
                    )
                    &&& (final(self).spec_processes()[i]->0).tasks@ == oldp.tasks@.push(task)
                    &&& final(self).spec_work() == old(self).spec_work() + 1
                },
                Err(e) => {
                    &&& *final(self) == *old(self)
                    &&& e == ErrorCode::NODEVICE
                    &&& (!spec_processid_valid(old(self).spec_processes(), processid)
                        || state_is_unrunnable(
                        (old(self).spec_processes()[processid.index as int]->0).state,
                    ))
                },
            },
    {
        let ghost oldk = *self;
        if !self.processid_is_valid(&processid) {
            return Err(ErrorCode::NODEVICE);
        }
        let i = processid.index;
        let unrunnable: bool = match &self.processes[i] {
            Some(p) => match p.state {
                State::Faulted => true,
                State::Terminated => true,
                State::CredentialsUnchecked => true,
                State::CredentialsFailed => true,
                _ => false,
            },
            None => true,
        };
        if unrunnable {
            return Err(ErrorCode::NODEVICE);
        }
        {
            let p = self.proc_mut(i);
            p.tasks.push(task);
        }
        proof {
            lemma_total_work_update(
                oldk.processes@,
                i as int,
                self.processes@[i as int],
            );
        }
        self.work = self.work + 1;
        Ok(())
    }

    /// Record that the named process's credentials were accepted: the
    /// process becomes admission-pending (one new unit of work) and carries
    /// the accepted credentials and its assigned identity. Fails when the
    /// process is past the unchecked state. Restricted by a capability.
    pub fn mark_credentials_pass<CAP: ProcessApprovalCapability>(
        &mut self,
        index: usize,
        credentials: Option<TbfFooterV2Credentials>,
        short_id: ShortID,
        _capability: &CAP,
    ) -> (r: Result<(), ErrorCode>)
        requires
            old(self).wf(),
            old(self).spec_work() < usize::MAX,
            index < old(self).spec_process_count(),
            old(self).spec_process_at(index as int) is Some,
        ensures
            final(self).wf(),
            Kernel::same_registry(*old(self), *final(self)),
            match r {
                Ok(()) => {
                    let oldp = old(self).spec_processes()[index as int]->0;
                    &&& oldp.state is CredentialsUnchecked
                    &&& final(self).spec_processes() == old(self).spec_processes().update(
                        index as int,
                        Some(
                            Process {
                                state: State::CredentialsApproved,
                                short_id,
                                credentials: (final(self).spec_processes()[index as int]
                                    ->0).credentials,
                                ..oldp
                            },
                        ),
                    )
                    &&& (final(self).spec_processes()[index as int]->0).credentials == credentials
                    &&& final(self).spec_work() == old(self).spec_work() + 1
                },
                Err(e) => {
                    &&& *final(self) == *old(self)
                    &&& e == ErrorCode::ALREADY
                    &&& !((old(self).spec_processes()[index as int]->0).state
                        is CredentialsUnchecked)
                },
            },
    {
        let ghost oldk = *self;
        let unchecked: bool = match &self.processes[index] {
            Some(p) => match p.state {
                State::CredentialsUnchecked => true,
                _ => false,
            },
            None => false,
        };
        if !unchecked {
            return Err(ErrorCode::ALREADY);
        }
        {
            let p = self.proc_mut(index);
            p.state = State::CredentialsApproved;
            p.short_id = short_id;
            p.credentials = credentials;
        }
        proof {
            lemma_total_work_update(
                oldk.processes@,
                index as int,
                self.processes@[index as int],
            );
        }
        self.work = self.work + 1;
        Ok(())
    }

    /// Record that the named process's credentials were rejected: it will
    /// never be scheduled. Fails when the process is past the unchecked
    /// state. Restricted by a capability.
    pub fn mark_credentials_fail<CAP: ProcessApprovalCapability>(
        &mut self,
        index: usize,
        _capability: &CAP,
    ) -> (r: Result<(), ErrorCode>)
        requires
            old(self).wf(),
            index < old(self).spec_process_count(),
            old(self).spec_process_at(index as int) is Some,
        ensures
            final(self).wf(),
            Kernel::same_registry(*old(self), *final(self)),
            final(self).spec_work() == old(self).spec_work(),
            match r {
                Ok(()) => {
                    let oldp = old(self).spec_processes()[index as int]->0;
                    &&& oldp.state is CredentialsUnchecked
                    &&& final(self).spec_processes() == old(self).spec_processes().update(
                        index as int,
                        Some(Process { state: State::CredentialsFailed, ..oldp }),
                    )
                },
                Err(e) => {
                    &&& *final(self) == *old(self)
                    &&& e == ErrorCode::ALREADY
                    &&& !((old(self).spec_processes()[index as int]->0).state
                        is CredentialsUnchecked)
                },
            },
    {
        let ghost oldk = *self;
        let unchecked: bool = match &self.processes[index] {
            Some(p) => match p.state {
                State::CredentialsUnchecked => true,
                _ => false,
            },
            None => false,
        };
        if !unchecked {
            return Err(ErrorCode::ALREADY);
        }
        {
            let p = self.proc_mut(index);
            p.state = State::CredentialsFailed;
        }
        proof {
            lemma_total_work_update(
                oldk.processes@,
                index as int,
                self.processes@[index as int],
            );
        }
        Ok(())
    }

    /// Put the process in slot `i` into the Faulted state, dropping its
    /// queued tasks and retiring the work they accounted for.
    fn fault_process(&mut self, i: usize)
        requires
            old(self).wf(),
            i < old(self).spec_process_count(),
            old(self).spec_process_at(i as int) is Some,
        ensures
            final(self).wf(),
            Kernel::same_registry(*old(self), *final(self)),
            final(self).spec_processes() == old(self).spec_processes().update(
                i as int,
                Some(
                    Process {
                        state: State::Faulted,
                        tasks: (final(self).spec_processes()[i as int]->0).tasks,
                        ..old(self).spec_processes()[i as int]->0
                    },
                ),
            ),
            (final(self).spec_processes()[i as int]->0).tasks@.len() == 0,
            final(self).spec_work() + slot_work(old(self).spec_processes()[i as int]) == old(
                self,
            ).spec_work(),
    {
        let ghost oldk = *self;
        proof {
            lemma_total_work_ge_slot(oldk.processes@, i as int);
        }
        let mut removed: usize = 0;
        {
            let p = self.proc_mut(i);
            removed = p.tasks.len();
            let was_active: usize = match p.state {
                State::Running => 1,
                State::CredentialsApproved => 1,
                _ => 0,
            };
            removed = removed + was_active;
            p.tasks = Vec::new();
            p.state = State::Faulted;
        }
        proof {
            lemma_total_work_update(
                oldk.processes@,
                i as int,
                self.processes@[i as int],
            );
        }
        self.work = self.work - removed;
    }

    /// Force every loaded process into the Faulted state, as if each had
    /// crashed. Restricted by a capability so that capsules cannot restart
    /// or stop all applications.
    pub fn hardfault_all_apps<C: ProcessManagementCapability>(&mut self, _capability: &C)
        requires
            old(self).wf(),
        ensures
            final(self).wf(),
            Kernel::same_registry(*old(self), *final(self)),
            final(self).spec_process_count() == old(self).spec_process_count(),
            faulted_up_to(
                old(self).spec_processes(),
                final(self).spec_processes(),
                old(self).spec_process_count() as int,
            ),
            final(self).spec_work() == final(self).spec_external_work(),
    {
        let mut i: usize = 0;
        while i < self.processes.len()
            invariant
                self.wf(),
                Kernel::same_registry(*old(self), *self),
                i <= self.spec_process_count(),
                self.spec_process_count() == old(self).spec_process_count(),
                forall|j: int|
                    i <= j < old(self).spec_process_count() ==> #[trigger] self.spec_process_at(j)
                        == old(self).spec_process_at(j),
                faulted_up_to(old(self).spec_processes(), self.spec_processes(), i as int),
            decreases self.spec_process_count() - i,
        {
            let ghost snap = *self;
            let filled: bool = match &self.processes[i] {
                Some(_) => true,
                None => false,
            };
            if filled {
                self.fault_process(i);
                proof {
                    assert(self.spec_processes() == snap.spec_processes().update(
                        i as int,
                        self.spec_processes()[i as int],
                    ));
                    assert(forall|j: int|
                        0 <= j < snap.spec_process_count() && j != i ==> #[trigger] self.spec_process_at(j)
                            == snap.spec_process_at(j));
                    assert((self.spec_process_at(i as int)->0).state is Faulted);
                }
            }
            i = i + 1;
        }
        proof {
            lemma_total_work_all_zero(self.processes@, self.processes@.len() as int);
        }
    }
}

/// Over the first `n` slots, `b` is `a` with every loaded process moved to
/// the Faulted state and its task queue emptied; no other field of any
/// process changes, and empty slots stay empty.
pub open spec fn faulted_up_to(a: Seq<Option<Process>>, b: Seq<Option<Process>>, n: int) -> bool {
    forall|j: int|
        0 <= j < n ==> ((a[j] is None ==> (#[trigger] b[j]) is None) && (a[j] is Some ==> b[j]
            is Some && (b[j]->0) == (Process {
            state: State::Faulted,
            tasks: (b[j]->0).tasks,
            ..a[j]->0
        }) && (b[j]->0).tasks@.len() == 0))
}

/// A table whose first `n` slots each account for no work contributes no
/// work over those slots.
proof fn lemma_total_work_all_zero(s: Seq<Option<Process>>, n: int)
    requires
        n <= s.len(),
        forall|j: int| 0 <= j < n ==> slot_work(#[trigger] s[j]) == 0,
    ensures
        total_work_prefix(s, n) == 0,
    decreases n,
{
    if n > 0 {
        lemma_total_work_all_zero(s, n - 1);
    }
}

/// `p` with the system-call return value `r` set.
pub open spec fn with_return(p: Process, r: SyscallReturn) -> Process {
    Process { syscall_return: Some(r), ..p }
}

/// Whether the kernel has a grant layout registered for `d`.
pub open spec fn has_layout(layouts: Seq<GrantLayout>, d: usize) -> bool {
    exists|j: int| 0 <= j < layouts.len() && layouts[j].driver_num == d
}

/// `b` is `a` unchanged, or `a` with a fresh, empty grant region for the
/// driver `d` appended (lazy grant allocation).
pub open spec fn grant_extension(a: Process, b: Process, d: usize) -> bool {
    ||| b == a
    ||| {
        &&& same_except_grants(a, b)
        &&& !a.has_grant(d)
        &&& b.grants@.len() == a.grants@.len() + 1
        &&& b.grants@.subrange(0, a.grants@.len() as int) == a.grants@
        &&& b.grants@.last().driver_num == d
        &&& b.grants@.last().upcalls@ == empty_upcalls(b.grants@.last().upcalls@.len())
        &&& b.grants@.last().allow_rw@ == empty_allows(b.grants@.last().allow_rw@.len())
        &&& b.grants@.last().allow_ro@ == empty_allows(b.grants@.last().allow_ro@.len())
    }
}

/// Outcome of the lazy grant-allocation protocol.
enum AllocResult {
    /// No grant was allocated: the driver is missing, declined, or has no
    /// registered layout.
    NoAllocation,
    /// A fresh grant region was materialized for the process.
    NewAllocation,
    /// The driver consented but the grant already existed.
    SameAllocation,
}

impl Kernel {
    /// Set the system-call return value of the process in slot `i`.
    fn set_return(&mut self, i: usize, r: SyscallReturn)
        requires
            old(self).wf(),
            i < old(self).spec_process_count(),
            old(self).spec_process_at(i as int) is Some,
        ensures
            final(self).wf(),
            Kernel::same_registry(*old(self), *final(self)),
            final(self).spec_work() == old(self).spec_work(),
            final(self).spec_processes() == old(self).spec_processes().update(
                i as int,
                Some(with_return(old(self).spec_processes()[i as int]->0, r)),
            ),
    {
        let ghost oldk = *self;
        {
            let p = self.proc_mut(i);
            p.syscall_return = Some(r);
        }
        proof {
            lemma_total_work_update(oldk.processes@, i as int, self.processes@[i as int]);
        }
    }

    /// The grant layout registered for `driver_num`, if any.
    fn find_layout(&self, driver_num: usize) -> (r: Option<GrantLayout>)
        ensures
            match r {
                Some(l) => exists|j: int|
                    0 <= j < self.spec_grant_layouts().len() && self.spec_grant_layouts()[j] == l
                        && l.driver_num == driver_num,
                None => !has_layout(self.spec_grant_layouts(), driver_num),
            },
    {
        let mut j: usize = 0;
        while j < self.grant_layouts.len()
            invariant
                j <= self.spec_grant_layouts().len(),
                forall|k: int|
                    0 <= k < j ==> (#[trigger] self.spec_grant_layouts()[k]).driver_num
                        != driver_num,
            decreases self.spec_grant_layouts().len() - j,
        {
            if self.grant_layouts[j].driver_num == driver_num {
                return Some(self.grant_layouts[j]);
            }
            j = j + 1;
        }
        None
    }

    /// Run the lazy grant-allocation protocol for `(driver_number, slot
    /// i)`: ask the driver to consent, then materialize the grant region
    /// from the registered layout.
    fn try_allocate_grant<D: DriverTable>(
        &mut self,
        drivers: &mut D,
        driver_number: usize,
        i: usize,
    ) -> (r: AllocResult)
        requires
            old(self).wf(),
            i < old(self).spec_process_count(),
            old(self).spec_process_at(i as int) is Some,
        ensures
            final(self).wf(),
            Kernel::same_registry(*old(self), *final(self)),
            final(self).spec_work() == old(self).spec_work(),
            final(self).spec_process_count() == old(self).spec_process_count(),
            final(self).spec_processes() == old(self).spec_processes().update(
                i as int,
                final(self).spec_processes()[i as int],
            ),
            final(self).spec_process_at(i as int) is Some,
            grant_extension(
                old(self).spec_process_at(i as int)->0,
                final(self).spec_process_at(i as int)->0,
                driver_number,
            ),
            match r {
                AllocResult::NewAllocation => (final(self).spec_process_at(i as int)->0).has_grant(
                    driver_number,
                ) && !(old(self).spec_process_at(i as int)->0).has_grant(driver_number)
                    && has_layout(old(self).spec_grant_layouts(), driver_number),
                AllocResult::SameAllocation => *final(self) == *old(self) && (old(
                    self,
                ).spec_process_at(i as int)->0).has_grant(driver_number),
                AllocResult::NoAllocation => *final(self) == *old(self),
            },
    {
        let ghost oldk = *self;
        let pid: ProcessId = match &self.processes[i] {
            Some(p) => p.processid(),
            None => unreached(),
        };
        let consent: bool = match drivers.allocate_grant(driver_number, pid) {
            Some(ok) => ok,
            None => false,
        };
        proof {
            assert(self.processes@ =~= self.processes@.update(
                i as int,
                self.processes@[i as int],
            ));
        }
        if !consent {
            return AllocResult::NoAllocation;
        }
        let already: bool = match &self.processes[i] {
            Some(p) => p.grant_is_allocated(driver_number),
            None => unreached(),
        };
        if already {
            return AllocResult::SameAllocation;
        }
        match self.find_layout(driver_number) {
            None => AllocResult::NoAllocation,
            Some(layout) => {
                {
                    let p = self.proc_mut(i);
                    p.allocate_grant_region(
                        driver_number,
                        layout.upcall_count,
                        layout.allow_rw_count,
                        layout.allow_ro_count,
                    );
                }
                proof {
                    lemma_total_work_update(
                        oldk.processes@,
                        i as int,
                        self.processes@[i as int],
                    );
                }
                AllocResult::NewAllocation
            },
        }
    }

    /// Service a Command system call: run the driver synchronously and hand
    /// its typed return to the process in wire format; a missing driver
    /// reports `NODEVICE`. Only the process's return-value slot changes.
    fn handle_command<D: DriverTable>(
        &mut self,
        drivers: &mut D,
        i: usize,
        driver_number: usize,
        subdriver_number: usize,
        arg0: usize,
        arg1: usize,
    )
        requires
            old(self).wf(),
            i < old(self).spec_process_count(),
            old(self).spec_process_at(i as int) is Some,
        ensures
            final(self).wf(),
            Kernel::same_registry(*old(self), *final(self)),
            final(self).spec_work() == old(self).spec_work(),
            exists|r: SyscallReturn|
                final(self).spec_processes() == old(self).spec_processes().update(
                    i as int,
                    Some(with_return(old(self).spec_processes()[i as int]->0, r)),
                ) && #[trigger] command_style(r),
    {
        let pid: ProcessId = match &self.processes[i] {
            Some(p) => p.processid(),
            None => unreached(),
        };
        let rv: SyscallReturn = match drivers.command(
            driver_number,
            subdriver_number,
            arg0,
            arg1,
            pid,
        ) {
            Some(cres) => SyscallReturn::from_command_return(cres),
            None => SyscallReturn::Failure(ErrorCode::NODEVICE),
        };
        assert(command_style(rv));
        self.set_return(i, rv);
    }
}

/// Whether the write of the flag byte `v` at `address` took effect: it did
/// exactly when the address lies in the process's accessible RAM, and an
/// invalid address is silently ignored.
pub open spec fn byte_flag_effect(oldp: Process, newp: Process, address: usize, v: u8) -> bool {
    if oldp.ram_start <= address < oldp.app_break {
        newp.ram@ == oldp.ram@.update(address - oldp.ram_start, v)
    } else {
        newp.ram@ == oldp.ram@
    }
}

/// Effect of a Yield call on the process. An invalid `which` is a silent
/// no-op. Yield-no-wait with an empty task queue writes flag byte 0 and
/// leaves the process Running; otherwise flag byte 1 is written and the
/// process moves to Yielded to take (or await) its tasks.
pub open spec fn yield_effect(oldp: Process, newp: Process, which: usize, address: usize) -> bool {
    if which > 1 {
        newp == oldp
    } else if which == 0 && oldp.tasks@.len() == 0 {
        newp == (Process { ram: newp.ram, ..oldp }) && byte_flag_effect(oldp, newp, address, 0)
    } else {
        newp == (Process { ram: newp.ram, state: State::Yielded, ..oldp }) && byte_flag_effect(
            oldp,
            newp,
            address,
            1,
        )
    }
}

/// Effect of an Exit call. `which == 0` terminates the process with the
/// given completion code; `which == 1` terminates it and re-enters it for
/// admission under a fresh identifier; any other `which` only reports
/// `NOSUPPORT`.
pub open spec fn exit_effect(
    oldp: Process,
    newp: Process,
    which: usize,
    code: usize,
    fresh_id: nat,
    have_fresh: bool,
) -> bool {
    if which == 0 || (which == 1 && !have_fresh) {
        &&& newp == (Process {
            state: State::Terminated,
            tasks: newp.tasks,
            completion_code: Some(Some(code as u32)),
            ..oldp
        })
        &&& newp.tasks@.len() == 0
    } else if which == 1 {
        &&& newp == (Process {
            state: State::CredentialsApproved,
            tasks: newp.tasks,
            completion_code: Some(Some(code as u32)),
            id: newp.id,
            restart_count: newp.restart_count,
            ..oldp
        })
        &&& newp.tasks@.len() == 0
        &&& newp.id == fresh_id
        &&& newp.restart_count == (if oldp.restart_count < usize::MAX {
            oldp.restart_count + 1
        } else {
            usize::MAX as int
        })
    } else {
        newp == with_return(oldp, SyscallReturn::Failure(ErrorCode::NOSUPPORT))
    }
}

/// Where an sbrk by the two's-complement increment `arg0` would move the
/// break.
pub open spec fn sbrk_target(app_break: usize, arg0: usize) -> int {
    if arg0 <= usize::MAX / 2 {
        app_break + arg0
    } else {
        app_break - (usize::MAX - arg0) - 1
    }
}

/// `newp` is `oldp` with the break moved to `target` and `r` reported when
/// the target is inside the RAM region, unchanged with `NOMEM` reported
/// otherwise.
pub open spec fn brk_effect(oldp: Process, newp: Process, target: int, r: SyscallReturn) -> bool {
    if oldp.ram_start <= target <= oldp.ram_start + oldp.ram@.len() {
        newp == (Process { app_break: newp.app_break, syscall_return: Some(r), ..oldp })
            && newp.app_break == target
    } else {
        newp == with_return(oldp, SyscallReturn::Failure(ErrorCode::NOMEM))
    }
}

/// Effect of a Memop call: move the break (brk, sbrk) or report one of the
/// process's memory bounds; anything else reports `NOSUPPORT`.
pub open spec fn memop_effect(oldp: Process, newp: Process, operand: usize, arg0: usize) -> bool {
    if operand == 0 {
        brk_effect(oldp, newp, arg0 as int, SyscallReturn::Success)
    } else if operand == 1 {
        brk_effect(
            oldp,
            newp,
            sbrk_target(oldp.app_break, arg0),
            SyscallReturn::SuccessU32(sbrk_target(oldp.app_break, arg0) as u32),
        )
    } else if operand == 2 {
        newp == with_return(oldp, SyscallReturn::SuccessU32(oldp.flash_start as u32))
    } else if operand == 3 {
        newp == with_return(oldp, SyscallReturn::SuccessU32(oldp.flash_end() as u32))
    } else if operand == 4 {
        newp == with_return(oldp, SyscallReturn::SuccessU32(oldp.ram_start as u32))
    } else if operand == 5 {
        newp == with_return(
            oldp,
            SyscallReturn::SuccessU32((oldp.ram_start + oldp.ram@.len()) as u32),
        )
    } else {
        newp == with_return(oldp, SyscallReturn::Failure(ErrorCode::NOSUPPORT))
    }
}

impl Kernel {
    /// Service a Yield system call for the Running process in slot `i`.
    fn handle_yield(&mut self, i: usize, which: usize, address: usize)
        requires
            old(self).wf(),
            i < old(self).spec_process_count(),
            old(self).spec_process_at(i as int) is Some,
            (old(self).spec_process_at(i as int)->0).state is Running,
        ensures
            final(self).wf(),
            Kernel::same_registry(*old(self), *final(self)),
            final(self).spec_process_count() == old(self).spec_process_count(),
            final(self).spec_processes() == old(self).spec_processes().update(
                i as int,
                final(self).spec_processes()[i as int],
            ),
            final(self).spec_process_at(i as int) is Some,
            yield_effect(
                old(self).spec_process_at(i as int)->0,
                final(self).spec_process_at(i as int)->0,
                which,
                address,
            ),
            old(self).spec_work() == final(self).spec_work() + (
            if (final(self).spec_process_at(i as int)->0).state is Yielded {
                1int
            } else {
                0int
            }),
    {
        let ghost oldk = *self;
        if which > 1 {
            // Not a valid Yield variant: no return value, no effect.
            return ;
        }
        let wait: bool = which == 1;
        let has_tasks: bool = match &self.processes[i] {
            Some(p) => p.has_tasks(),
            None => unreached(),
        };
        let return_now: bool = !wait && !has_tasks;
        {
            let p = self.proc_mut(i);
            if return_now {
                p.set_byte(address, 0);
            } else {
                p.set_byte(address, 1);
                p.state = State::Yielded;
            }
        }
        proof {
            lemma_total_work_update(oldk.processes@, i as int, self.processes@[i as int]);
        }
        if !return_now {
            self.work = self.work - 1;
        }
    }

    /// Service an Exit system call for the Running process in slot `i`:
    /// terminate it, or terminate and resubmit it for admission under a
    /// fresh identifier. When the identifier space is exhausted no fresh
    /// identity can be minted, and a restart request terminates instead.
    fn handle_exit(&mut self, i: usize, which: usize, completion_code: usize)
        requires
            old(self).wf(),
            i < old(self).spec_process_count(),
            old(self).spec_process_at(i as int) is Some,
            (old(self).spec_process_at(i as int)->0).state is Running,
        ensures
            final(self).wf(),
            final(self).spec_grants_finalized() == old(self).spec_grants_finalized(),
            final(self).spec_grant_count() == old(self).spec_grant_count(),
            final(self).spec_grant_layouts() == old(self).spec_grant_layouts(),
            final(self).spec_external_work() == old(self).spec_external_work(),
            final(self).spec_identifier_max() == old(self).spec_identifier_max() + (
            if which == 1 && old(self).spec_identifier_max() < usize::MAX {
                1int
            } else {
                0int
            }),
            final(self).spec_process_count() == old(self).spec_process_count(),
            final(self).spec_processes() == old(self).spec_processes().update(
                i as int,
                final(self).spec_processes()[i as int],
            ),
            final(self).spec_process_at(i as int) is Some,
            exit_effect(
                old(self).spec_process_at(i as int)->0,
                final(self).spec_process_at(i as int)->0,
                which,
                completion_code,
                old(self).spec_identifier_max(),
                old(self).spec_identifier_max() < usize::MAX,
            ),
            old(self).spec_work() + (
            if which == 1 && old(self).spec_identifier_max() < usize::MAX {
                1int
            } else {
                0int
            }) == final(self).spec_work() + (if which <= 1 {
                1int + (old(self).spec_process_at(i as int)->0).tasks@.len()
            } else {
                0int
            }),
    {
        let ghost oldk = *self;
        if which > 1 {
            self.set_return(i, SyscallReturn::Failure(ErrorCode::NOSUPPORT));
            return ;
        }
        proof {
            lemma_total_work_ge_slot(oldk.processes@, i as int);
        }
        let mut retired: usize = 0;
        let code: u32 = #[verifier::truncate] (completion_code as u32);
        if which == 0 || self.process_identifier_max == usize::MAX {
            {
                let p = self.proc_mut(i);
                retired = p.tasks.len() + 1;
                p.tasks = Vec::new();
                p.state = State::Terminated;
                p.completion_code = Some(Some(code));
            }
            proof {
                lemma_total_work_update(oldk.processes@, i as int, self.processes@[i as int]);
            }
            self.work = self.work - retired;
        } else {
            let fresh = self.create_process_identifier();
            {
                let p = self.proc_mut(i);
                retired = p.tasks.len();
                p.tasks = Vec::new();
                p.state = State::CredentialsApproved;
                p.completion_code = Some(Some(code));
                p.id = fresh;
                if p.restart_count < usize::MAX {
                    p.restart_count = p.restart_count + 1;
                }
            }
            proof {
                lemma_total_work_update(oldk.processes@, i as int, self.processes@[i as int]);
            }
            self.work = self.work - retired;
        }
    }

    /// Service a Memop system call for the process in slot `i`.
    fn handle_memop(&mut self, i: usize, operand: usize, arg0: usize)
        requires
            old(self).wf(),
            i < old(self).spec_process_count(),
            old(self).spec_process_at(i as int) is Some,
        ensures
            final(self).wf(),
            Kernel::same_registry(*old(self), *final(self)),
            final(self).spec_work() == old(self).spec_work(),
            final(self).spec_process_count() == old(self).spec_process_count(),
            final(self).spec_processes() == old(self).spec_processes().update(
                i as int,
                final(self).spec_processes()[i as int],
            ),
            final(self).spec_process_at(i as int) is Some,
            memop_effect(
                old(self).spec_process_at(i as int)->0,
                final(self).spec_process_at(i as int)->0,
                operand,
                arg0,
            ),
    {
        let ghost oldk = *self;
        let (ram_start, ram_len, app_break, flash_start, flash_len): (
            usize,
            usize,
            usize,
            usize,
            usize,
        ) = match &self.processes[i] {
            Some(p) => (
                p.ram_start,
                p.ram.len(),
                p.app_break,
                p.flash_start,
                p.integrity.len() + p.footers.len(),
            ),
            None => unreached(),
        };
        if operand == 0 || operand == 1 {
            // brk to an absolute address, or sbrk by a signed increment.
            let target_ok: bool;
            let mut target: usize = 0;
            if operand == 0 {
                target = arg0;
                target_ok = ram_start <= target && target - ram_start <= ram_len;
            } else {
                if arg0 <= usize::MAX / 2 {
                    match app_break.checked_add(arg0) {
                        Some(t) => {
                            target = t;
                            target_ok = ram_start <= t && t - ram_start <= ram_len;
                        },
                        None => {
                            target_ok = false;
                        },
                    }
                } else {
                    let dec: usize = (usize::MAX - arg0) + 1;
                    match app_break.checked_sub(dec) {
                        Some(t) => {
                            target = t;
                            target_ok = ram_start <= t && t - ram_start <= ram_len;
                        },
                        None => {
                            target_ok = false;
                        },
                    }
                }
            }
            if target_ok {
                let rv: SyscallReturn = if operand == 0 {
                    SyscallReturn::Success
                } else {
                    SyscallReturn::SuccessU32(#[verifier::truncate] (target as u32))
                };
                {
                    let p = self.proc_mut(i);
                    p.app_break = target;
                    p.syscall_return = Some(rv);
                }
                proof {
                    lemma_total_work_update(oldk.processes@, i as int, self.processes@[i as int]);
                }
            } else {
                self.set_return(i, SyscallReturn::Failure(ErrorCode::NOMEM));
            }
        } else if operand == 2 {
            self.set_return(
                i,
                SyscallReturn::SuccessU32(#[verifier::truncate] (flash_start as u32)),
            );
        } else if operand == 3 {
            self.set_return(
                i,
                SyscallReturn::SuccessU32(#[verifier::truncate] ((flash_start + flash_len) as u32)),
            );
        } else if operand == 4 {
            self.set_return(i, SyscallReturn::SuccessU32(#[verifier::truncate] (ram_start as u32)));
        } else if operand == 5 {
            self.set_return(
                i,
                SyscallReturn::SuccessU32(#[verifier::truncate] ((ram_start + ram_len) as u32)),
            );
        } else {
            self.set_return(i, SyscallReturn::Failure(ErrorCode::NOSUPPORT));
        }
    }
}

/// Return values a Command system call can produce: the wire image of a
/// capsule command return.
pub open spec fn command_style(r: SyscallReturn) -> bool {
    ||| r is Success
    ||| r is SuccessU32
    ||| r is SuccessU32U32
    ||| r is SuccessU32U32U32
    ||| r is Failure
    ||| r is FailureU32
    ||| r is FailureU32U32
}

impl Kernel {
    /// Service a ReadWriteAllow system call for the process in slot `i`:
    /// validate the buffer, swap it into the grant's allow slot (allocating
    /// the grant lazily on first use), and report the previously lent
    /// buffer; on any failure the caller's own parameters come back.
    fn handle_allow_rw<D: DriverTable>(
        &mut self,
        drivers: &mut D,
        i: usize,
        driver_number: usize,
        subdriver_number: usize,
        allow_address: usize,
        allow_size: usize,
    )
        requires
            old(self).wf(),
            i < old(self).spec_process_count(),
            old(self).spec_process_at(i as int) is Some,
        ensures
            final(self).wf(),
            Kernel::same_registry(*old(self), *final(self)),
            final(self).spec_work() == old(self).spec_work(),
            final(self).spec_process_count() == old(self).spec_process_count(),
            final(self).spec_processes() == old(self).spec_processes().update(
                i as int,
                final(self).spec_processes()[i as int],
            ),
            final(self).spec_process_at(i as int) is Some,
            allow_rw_syscall_effect(
                old(self).spec_process_at(i as int)->0,
                final(self).spec_process_at(i as int)->0,
                driver_number,
                subdriver_number,
                allow_address,
                allow_size,
            ),
            (old(self).spec_process_at(i as int)->0).rw_buffer_valid(allow_address, allow_size)
                && has_allow_rw_slot(
                old(self).spec_process_at(i as int)->0,
                driver_number,
                subdriver_number,
            ) ==> allow_rw_success_effect(
                old(self).spec_process_at(i as int)->0,
                final(self).spec_process_at(i as int)->0,
                driver_number,
                subdriver_number,
                allow_address,
                allow_size,
            ),
            (old(self).spec_process_at(i as int)->0).rw_buffer_valid(allow_address, allow_size)
                && !(old(self).spec_process_at(i as int)->0).has_grant(driver_number)
                && !has_layout(old(self).spec_grant_layouts(), driver_number)
                ==> allow_rw_failure_effect(
                old(self).spec_process_at(i as int)->0,
                final(self).spec_process_at(i as int)->0,
                driver_number,
                subdriver_number,
                allow_address,
                allow_size,
                ErrorCode::NOMEM,
            ),
    {
        let ghost oldk = *self;
        let ghost oldp = old(self).spec_process_at(i as int)->0;
        let valid: bool = match &self.processes[i] {
            Some(p) => p.rw_buffer_in_bounds(allow_address, allow_size),
            None => unreached(),
        };
        if !valid {
            self.set_return(
                i,
                SyscallReturn::AllowReadWriteFailure(ErrorCode::INVAL, allow_address, allow_size),
            );
            return ;
        }
        let r1: Result<AllowSlot, ErrorCode> = {
            let p = self.proc_mut(i);
            p.allow_rw_swap(driver_number, subdriver_number, allow_address, allow_size)
        };
        proof {
            lemma_total_work_update(oldk.processes@, i as int, self.processes@[i as int]);
            assert(self.spec_processes() == oldk.spec_processes().update(
                i as int,
                self.spec_processes()[i as int],
            ));
            assert(forall|j: int|
                0 <= j < oldk.spec_process_count() && j != i ==> #[trigger] self.spec_process_at(j)
                    == oldk.spec_process_at(j));
            assert(self.wf());
        }
        match r1 {
            Ok(prev) => {
                let ghost swapped = self.spec_process_at(i as int)->0;
                proof {
                    lemma_allow_rw_swap_observables(
                        oldp,
                        swapped,
                        driver_number,
                        subdriver_number,
                        AllowSlot { ptr: allow_address, len: allow_size },
                        prev,
                    );
                }
                self.set_return(
                    i,
                    SyscallReturn::AllowReadWriteSuccess(prev.ptr, prev.len),
                );
                proof {
                    lemma_slots_same_grants(swapped, self.spec_process_at(i as int)->0);
                    assert(allow_rw_success_effect(
                        oldp,
                        self.spec_process_at(i as int)->0,
                        driver_number,
                        subdriver_number,
                        allow_address,
                        allow_size,
                    ));
                    assert(forall|j: int|
                        0 <= j < oldk.spec_process_count() && j != i
                            ==> #[trigger] self.spec_process_at(j) == oldk.spec_process_at(j));
                }
            },
            Err(e1) => {
                let is_nomem: bool = match e1 {
                    ErrorCode::NOMEM => true,
                    _ => false,
                };
                if is_nomem {
                    match self.try_allocate_grant(drivers, driver_number, i) {
                        AllocResult::NewAllocation => {
                            let ghost midp = self.spec_process_at(i as int)->0;
                            proof {
                                lemma_extension_observables(oldp, midp, driver_number);
                            }
                            let ghost k2 = *self;
                            let r2: Result<AllowSlot, ErrorCode> = {
                                let p = self.proc_mut(i);
                                p.allow_rw_swap(
                                    driver_number,
                                    subdriver_number,
                                    allow_address,
                                    allow_size,
                                )
                            };
                            proof {
                                lemma_total_work_update(
                                    k2.spec_processes(),
                                    i as int,
                                    self.processes@[i as int],
                                );
                            }
                            match r2 {
                                Ok(prev) => {
                                    let ghost swapped = self.spec_process_at(i as int)->0;
                                    proof {
                                        lemma_allow_rw_swap_observables(
                                            midp,
                                            swapped,
                                            driver_number,
                                            subdriver_number,
                                            AllowSlot { ptr: allow_address, len: allow_size },
                                            prev,
                                        );
                                    }
                                    self.set_return(
                                        i,
                                        SyscallReturn::AllowReadWriteSuccess(prev.ptr, prev.len),
                                    );
                                    proof {
                                        lemma_slots_same_grants(
                                            swapped,
                                            self.spec_process_at(i as int)->0,
                                        );
                                        assert(allow_rw_success_effect(
                                            oldp,
                                            self.spec_process_at(i as int)->0,
                                            driver_number,
                                            subdriver_number,
                                            allow_address,
                                            allow_size,
                                        ));
                                    }
                                },
                                Err(e2) => {
                                    self.set_return(
                                        i,
                                        SyscallReturn::AllowReadWriteFailure(
                                            e2,
                                            allow_address,
                                            allow_size,
                                        ),
                                    );
                                    proof {
                                        lemma_slots_same_grants(
                                            midp,
                                            self.spec_process_at(i as int)->0,
                                        );
                                        assert(allow_rw_failure_effect(
                                            oldp,
                                            self.spec_process_at(i as int)->0,
                                            driver_number,
                                            subdriver_number,
                                            allow_address,
                                            allow_size,
                                            e2,
                                        ));
                                    }
                                },
                            }
                        },
                        _ => {
                            self.set_return(
                                i,
                                SyscallReturn::AllowReadWriteFailure(
                                    ErrorCode::NOMEM,
                                    allow_address,
                                    allow_size,
                                ),
                            );
                            proof {
                                lemma_slots_same_grants(oldp, self.spec_process_at(i as int)->0);
                                assert(allow_rw_failure_effect(
                                    oldp,
                                    self.spec_process_at(i as int)->0,
                                    driver_number,
                                    subdriver_number,
                                    allow_address,
                                    allow_size,
                                    ErrorCode::NOMEM,
                                ));
                            }
                        },
                    }
                } else {
                    self.set_return(
                        i,
                        SyscallReturn::AllowReadWriteFailure(e1, allow_address, allow_size),
                    );
                    proof {
                        lemma_slots_same_grants(oldp, self.spec_process_at(i as int)->0);
                        assert(allow_rw_failure_effect(
                            oldp,
                            self.spec_process_at(i as int)->0,
                            driver_number,
                            subdriver_number,
                            allow_address,
                            allow_size,
                            e1,
                        ));
                    }
                }
            },
        }
        proof {
            assert(self.spec_processes() =~= old(self).spec_processes().update(
                i as int,
                self.spec_processes()[i as int],
            ));
        }
    }
}

impl Kernel {
    /// Service a ReadOnlyAllow system call for the process in slot `i`:
    /// validate the buffer against the process's readable memory (its
    /// accessible RAM or its flash), swap it into the grant's read-only
    /// allow slot, and report the previously lent buffer; on any failure
    /// the caller's own parameters come back.
    fn handle_allow_ro<D: DriverTable>(
        &mut self,
        drivers: &mut D,
        i: usize,
        driver_number: usize,
        subdriver_number: usize,
        allow_address: usize,
        allow_size: usize,
    )
        requires
            old(self).wf(),
            i < old(self).spec_process_count(),
            old(self).spec_process_at(i as int) is Some,
        ensures
            final(self).wf(),
            Kernel::same_registry(*old(self), *final(self)),
            final(self).spec_work() == old(self).spec_work(),
            final(self).spec_process_count() == old(self).spec_process_count(),
            final(self).spec_processes() == old(self).spec_processes().update(
                i as int,
                final(self).spec_processes()[i as int],
            ),
            final(self).spec_process_at(i as int) is Some,
            allow_ro_syscall_effect(
                old(self).spec_process_at(i as int)->0,
                final(self).spec_process_at(i as int)->0,
                driver_number,
                subdriver_number,
                allow_address,
                allow_size,
            ),
            (old(self).spec_process_at(i as int)->0).ro_buffer_valid(allow_address, allow_size)
                && has_allow_ro_slot(
                old(self).spec_process_at(i as int)->0,
                driver_number,
                subdriver_number,
            ) ==> allow_ro_success_effect(
                old(self).spec_process_at(i as int)->0,
                final(self).spec_process_at(i as int)->0,
                driver_number,
                subdriver_number,
                allow_address,
                allow_size,
            ),
            (old(self).spec_process_at(i as int)->0).ro_buffer_valid(allow_address, allow_size)
                && !(old(self).spec_process_at(i as int)->0).has_grant(driver_number)
                && !has_layout(old(self).spec_grant_layouts(), driver_number)
                ==> allow_ro_failure_effect(
                old(self).spec_process_at(i as int)->0,
                final(self).spec_process_at(i as int)->0,
                driver_number,
                subdriver_number,
                allow_address,
                allow_size,
                ErrorCode::NOMEM,
            ),
    {
        let ghost oldk = *self;
        let ghost oldp = old(self).spec_process_at(i as int)->0;
        let valid: bool = match &self.processes[i] {
            Some(p) => p.ro_buffer_in_bounds(allow_address, allow_size),
            None => unreached(),
        };
        if !valid {
            self.set_return(
                i,
                SyscallReturn::AllowReadOnlyFailure(ErrorCode::INVAL, allow_address, allow_size),
            );
            return ;
        }
        let r1: Result<AllowSlot, ErrorCode> = {
            let p = self.proc_mut(i);
            p.allow_ro_swap(driver_number, subdriver_number, allow_address, allow_size)
        };
        proof {
            lemma_total_work_update(oldk.processes@, i as int, self.processes@[i as int]);
            assert(self.spec_processes() == oldk.spec_processes().update(
                i as int,
                self.spec_processes()[i as int],
            ));
            assert(forall|j: int|
                0 <= j < oldk.spec_process_count() && j != i ==> #[trigger] self.spec_process_at(j)
                    == oldk.spec_process_at(j));
            assert(self.wf());
        }
        match r1 {
            Ok(prev) => {
                let ghost swapped = self.spec_process_at(i as int)->0;
                proof {
                    lemma_allow_ro_swap_observables(
                        oldp,
                        swapped,
                        driver_number,
                        subdriver_number,
                        AllowSlot { ptr: allow_address, len: allow_size },
                        prev,
                    );
                }
                self.set_return(
                    i,
                    SyscallReturn::AllowReadOnlySuccess(prev.ptr, prev.len),
                );
                proof {
                    lemma_slots_same_grants(swapped, self.spec_process_at(i as int)->0);
                    assert(allow_ro_success_effect(
                        oldp,
                        self.spec_process_at(i as int)->0,
                        driver_number,
                        subdriver_number,
                        allow_address,
                        allow_size,
                    ));
                    assert(forall|j: int|
                        0 <= j < oldk.spec_process_count() && j != i
                            ==> #[trigger] self.spec_process_at(j) == oldk.spec_process_at(j));
                }
            },
            Err(e1) => {
                let is_nomem: bool = match e1 {
                    ErrorCode::NOMEM => true,
                    _ => false,
                };
                if is_nomem {
                    match self.try_allocate_grant(drivers, driver_number, i) {
                        AllocResult::NewAllocation => {
                            let ghost midp = self.spec_process_at(i as int)->0;
                            proof {
                                lemma_extension_observables(oldp, midp, driver_number);
                            }
                            let ghost k2 = *self;
                            let r2: Result<AllowSlot, ErrorCode> = {
                                let p = self.proc_mut(i);
                                p.allow_ro_swap(
                                    driver_number,
                                    subdriver_number,
                                    allow_address,
                                    allow_size,
                                )
                            };
                            proof {
                                lemma_total_work_update(
                                    k2.spec_processes(),
                                    i as int,
                                    self.processes@[i as int],
                                );
                            }
                            match r2 {
                                Ok(prev) => {
                                    let ghost swapped = self.spec_process_at(i as int)->0;
                                    proof {
                                        lemma_allow_ro_swap_observables(
                                            midp,
                                            swapped,
                                            driver_number,
                                            subdriver_number,
                                            AllowSlot { ptr: allow_address, len: allow_size },
                                            prev,
                                        );
                                    }
                                    self.set_return(
                                        i,
                                        SyscallReturn::AllowReadOnlySuccess(prev.ptr, prev.len),
                                    );
                                    proof {
                                        lemma_slots_same_grants(
                                            swapped,
                                            self.spec_process_at(i as int)->0,
                                        );
                                        assert(allow_ro_success_effect(
                                            oldp,
                                            self.spec_process_at(i as int)->0,
                                            driver_number,
                                            subdriver_number,
                                            allow_address,
                                            allow_size,
                                        ));
                                    }
                                },
                                Err(e2) => {
                                    self.set_return(
                                        i,
                                        SyscallReturn::AllowReadOnlyFailure(
                                            e2,
                                            allow_address,
                                            allow_size,
                                        ),
                                    );
                                    proof {
                                        lemma_slots_same_grants(
                                            midp,
                                            self.spec_process_at(i as int)->0,
                                        );
                                        assert(allow_ro_failure_effect(
                                            oldp,
                                            self.spec_process_at(i as int)->0,
                                            driver_number,
                                            subdriver_number,
                                            allow_address,
                                            allow_size,
                                            e2,
                                        ));
                                    }
                                },
                            }
                        },
                        _ => {
                            self.set_return(
                                i,
                                SyscallReturn::AllowReadOnlyFailure(
                                    ErrorCode::NOMEM,
                                    allow_address,
                                    allow_size,
                                ),
                            );
                            proof {
                                lemma_slots_same_grants(oldp, self.spec_process_at(i as int)->0);
                                assert(allow_ro_failure_effect(
                                    oldp,
                                    self.spec_process_at(i as int)->0,
                                    driver_number,
                                    subdriver_number,
                                    allow_address,
                                    allow_size,
                                    ErrorCode::NOMEM,
                                ));
                            }
                        },
                    }
                } else {
                    self.set_return(
                        i,
                        SyscallReturn::AllowReadOnlyFailure(e1, allow_address, allow_size),
                    );
                    proof {
                        lemma_slots_same_grants(oldp, self.spec_process_at(i as int)->0);
                        assert(allow_ro_failure_effect(
                            oldp,
                            self.spec_process_at(i as int)->0,
                            driver_number,
                            subdriver_number,
                            allow_address,
                            allow_size,
                            e1,
                        ));
                    }
                }
            },
        }
        proof {
            assert(self.spec_processes() =~= old(self).spec_processes().update(
                i as int,
                self.spec_processes()[i as int],
            ));
        }
    }
}

impl Kernel {
    /// Service a Subscribe system call for the process in slot `i`:
    /// validate the upcall pointer (null means unsubscribe), swap the new
    /// descriptor into the grant's upcall slot (allocating the grant lazily
    /// on first use), report the previously installed descriptor, and purge
    /// every queued delivery of this upcall so the old function pointer can
    /// never fire again; on any failure the caller's own descriptor comes
    /// back and nothing is purged.
    fn handle_subscribe<D: DriverTable>(
        &mut self,
        drivers: &mut D,
        i: usize,
        driver_number: usize,
        subdriver_number: usize,
        upcall_ptr: usize,
        appdata: usize,
    )
        requires
            old(self).wf(),
            i < old(self).spec_process_count(),
            old(self).spec_process_at(i as int) is Some,
        ensures
            final(self).wf(),
            Kernel::same_registry(*old(self), *final(self)),
            final(self).spec_process_count() == old(self).spec_process_count(),
            final(self).spec_processes() == old(self).spec_processes().update(
                i as int,
                final(self).spec_processes()[i as int],
            ),
            final(self).spec_process_at(i as int) is Some,
            subscribe_syscall_effect(
                old(self).spec_process_at(i as int)->0,
                final(self).spec_process_at(i as int)->0,
                driver_number,
                subdriver_number,
                upcall_ptr,
                appdata,
            ),
            final(self).spec_work() + (old(self).spec_process_at(i as int)->0).tasks@.len() == old(
                self,
            ).spec_work() + (final(self).spec_process_at(i as int)->0).tasks@.len(),
            (upcall_ptr == 0 || (old(self).spec_process_at(i as int)->0).flash_start <= upcall_ptr
                < (old(self).spec_process_at(i as int)->0).flash_integrity_end())
                && has_upcall_slot(
                old(self).spec_process_at(i as int)->0,
                driver_number,
                subdriver_number,
            ) ==> subscribe_success_effect(
                old(self).spec_process_at(i as int)->0,
                final(self).spec_process_at(i as int)->0,
                driver_number,
                subdriver_number,
                upcall_ptr,
                appdata,
            ),
            (upcall_ptr == 0 || (old(self).spec_process_at(i as int)->0).flash_start <= upcall_ptr
                < (old(self).spec_process_at(i as int)->0).flash_integrity_end()) && !(old(
                self,
            ).spec_process_at(i as int)->0).has_grant(driver_number) && !has_layout(
                old(self).spec_grant_layouts(),
                driver_number,
            ) ==> subscribe_failure_effect(
                old(self).spec_process_at(i as int)->0,
                final(self).spec_process_at(i as int)->0,
                driver_number,
                subdriver_number,
                upcall_ptr,
                appdata,
                ErrorCode::NOMEM,
            ),
    {
        let ghost oldk = *self;
        let ghost oldp = old(self).spec_process_at(i as int)->0;
        let ptr_ok: bool = upcall_ptr == 0 || (match &self.processes[i] {
            Some(p) => p.is_valid_upcall_function_pointer(upcall_ptr),
            None => unreached(),
        });
        if !ptr_ok {
            self.set_return(
                i,
                SyscallReturn::SubscribeFailure(ErrorCode::INVAL, upcall_ptr, appdata),
            );
            return ;
        }
        let r1: Result<UpcallSlot, ErrorCode> = {
            let p = self.proc_mut(i);
            p.subscribe_swap(driver_number, subdriver_number, upcall_ptr, appdata)
        };
        proof {
            lemma_total_work_update(oldk.processes@, i as int, self.processes@[i as int]);
            assert(self.spec_processes() == oldk.spec_processes().update(
                i as int,
                self.spec_processes()[i as int],
            ));
            assert(self.wf());
        }
        match r1 {
            Ok(prev) => {
                let ghost swapped = self.spec_process_at(i as int)->0;
                proof {
                    lemma_upcall_swap_observables(
                        oldp,
                        swapped,
                        driver_number,
                        subdriver_number,
                        UpcallSlot { fn_ptr: upcall_ptr, appdata },
                        prev,
                    );
                }
                self.finish_subscribe_success(i, driver_number, subdriver_number, prev);
                proof {
                    assert(subscribe_success_effect(
                        oldp,
                        self.spec_process_at(i as int)->0,
                        driver_number,
                        subdriver_number,
                        upcall_ptr,
                        appdata,
                    ));
                }
            },
            Err(e1) => {
                let is_nomem: bool = match e1 {
                    ErrorCode::NOMEM => true,
                    _ => false,
                };
                if is_nomem {
                    match self.try_allocate_grant(drivers, driver_number, i) {
                        AllocResult::NewAllocation => {
                            let ghost midp = self.spec_process_at(i as int)->0;
                            proof {
                                lemma_extension_observables(oldp, midp, driver_number);
                            }
                            let ghost k2 = *self;
                            let r2: Result<UpcallSlot, ErrorCode> = {
                                let p = self.proc_mut(i);
                                p.subscribe_swap(
                                    driver_number,
                                    subdriver_number,
                                    upcall_ptr,
                                    appdata,
                                )
                            };
                            proof {
                                lemma_total_work_update(
                                    k2.spec_processes(),
                                    i as int,
                                    self.processes@[i as int],
                                );
                                assert(self.wf());
                            }
                            match r2 {
                                Ok(prev) => {
                                    let ghost swapped = self.spec_process_at(i as int)->0;
                                    proof {
                                        lemma_upcall_swap_observables(
                                            midp,
                                            swapped,
                                            driver_number,
                                            subdriver_number,
                                            UpcallSlot { fn_ptr: upcall_ptr, appdata },
                                            prev,
                                        );
                                    }
                                    self.finish_subscribe_success(
                                        i,
                                        driver_number,
                                        subdriver_number,
                                        prev,
                                    );
                                    proof {
                                        assert(subscribe_success_effect(
                                            oldp,
                                            self.spec_process_at(i as int)->0,
                                            driver_number,
                                            subdriver_number,
                                            upcall_ptr,
                                            appdata,
                                        ));
                                    }
                                },
                                Err(e2) => {
                                    self.set_return(
                                        i,
                                        SyscallReturn::SubscribeFailure(e2, upcall_ptr, appdata),
                                    );
                                    proof {
                                        lemma_slots_same_grants(
                                            midp,
                                            self.spec_process_at(i as int)->0,
                                        );
                                        assert(subscribe_failure_effect(
                                            oldp,
                                            self.spec_process_at(i as int)->0,
                                            driver_number,
                                            subdriver_number,
                                            upcall_ptr,
                                            appdata,
                                            e2,
                                        ));
                                    }
                                },
                            }
                        },
                        _ => {
                            self.set_return(
                                i,
                                SyscallReturn::SubscribeFailure(
                                    ErrorCode::NOMEM,
                                    upcall_ptr,
                                    appdata,
                                ),
                            );
                            proof {
                                lemma_slots_same_grants(oldp, self.spec_process_at(i as int)->0);
                                assert(subscribe_failure_effect(
                                    oldp,
                                    self.spec_process_at(i as int)->0,
                                    driver_number,
                                    subdriver_number,
                                    upcall_ptr,
                                    appdata,
                                    ErrorCode::NOMEM,
                                ));
                            }
                        },
                    }
                } else {
                    self.set_return(
                        i,
                        SyscallReturn::SubscribeFailure(e1, upcall_ptr, appdata),
                    );
                    proof {
                        lemma_slots_same_grants(oldp, self.spec_process_at(i as int)->0);
                        assert(subscribe_failure_effect(
                            oldp,
                            self.spec_process_at(i as int)->0,
                            driver_number,
                            subdriver_number,
                            upcall_ptr,
                            appdata,
                            e1,
                        ));
                    }
                }
            },
        }
        proof {
            assert(self.spec_processes() =~= old(self).spec_processes().update(
                i as int,
                self.spec_processes()[i as int],
            ));
        }
    }

    /// After a successful upcall swap: purge the pending deliveries of the
    /// swapped upcall, retire the work they accounted for, and report the
    /// previous descriptor to the process.
    fn finish_subscribe_success(
        &mut self,
        i: usize,
        driver_number: usize,
        subdriver_number: usize,
        prev: UpcallSlot,
    )
        requires
            old(self).wf(),
            i < old(self).spec_process_count(),
            old(self).spec_process_at(i as int) is Some,
        ensures
            final(self).wf(),
            Kernel::same_registry(*old(self), *final(self)),
            final(self).spec_process_count() == old(self).spec_process_count(),
            final(self).spec_processes() == old(self).spec_processes().update(
                i as int,
                final(self).spec_processes()[i as int],
            ),
            final(self).spec_process_at(i as int) is Some,
            ({
                let oldp = old(self).spec_process_at(i as int)->0;
                let newp = final(self).spec_process_at(i as int)->0;
                let id = UpcallId { driver_num: driver_number, subscribe_num: subdriver_number };
                &&& newp.tasks@ == oldp.tasks@.filter(keeps_other_upcalls(id))
                &&& newp.syscall_return == Some(
                    SyscallReturn::SubscribeSuccess(prev.fn_ptr, prev.appdata),
                )
                &&& newp == (Process {
                    tasks: newp.tasks,
                    syscall_return: newp.syscall_return,
                    ..oldp
                })
                &&& forall|d2: usize, s2: usize|
                    #![trigger upcall_slot_of(newp, d2, s2)]
                    #![trigger upcall_slot_of(oldp, d2, s2)]
                    upcall_slot_of(newp, d2, s2) == upcall_slot_of(oldp, d2, s2)
                &&& forall|d2: usize, s2: usize|
                    #![trigger allow_rw_slot_of(newp, d2, s2)]
                    #![trigger allow_rw_slot_of(oldp, d2, s2)]
                    allow_rw_slot_of(newp, d2, s2) == allow_rw_slot_of(oldp, d2, s2)
                &&& forall|d2: usize, s2: usize|
                    #![trigger allow_ro_slot_of(newp, d2, s2)]
                    #![trigger allow_ro_slot_of(oldp, d2, s2)]
                    allow_ro_slot_of(newp, d2, s2) == allow_ro_slot_of(oldp, d2, s2)
            }),
            final(self).spec_work() + (old(self).spec_process_at(i as int)->0).tasks@.len() == old(
                self,
            ).spec_work() + (final(self).spec_process_at(i as int)->0).tasks@.len(),
    {
        let ghost oldk = *self;
        let ghost prepurge = old(self).spec_process_at(i as int)->0;
        let removed: usize = {
            let p = self.proc_mut(i);
            p.remove_upcall_tasks(
                UpcallId { driver_num: driver_number, subscribe_num: subdriver_number },
            )
        };
        proof {
            lemma_total_work_ge_slot(oldk.processes@, i as int);
            lemma_total_work_update(oldk.processes@, i as int, self.processes@[i as int]);
        }
        self.work = self.work - removed;
        let ghost purged = self.spec_process_at(i as int)->0;
        proof {
            lemma_slots_same_grants(prepurge, purged);
        }
        self.set_return(i, SyscallReturn::SubscribeSuccess(prev.fn_ptr, prev.appdata));
        proof {
            lemma_slots_same_grants(purged, self.spec_process_at(i as int)->0);
        }
        proof {
            assert(self.spec_processes() =~= old(self).spec_processes().update(
                i as int,
                self.spec_processes()[i as int],
            ));
        }
    }
}

/// Effect of a UserspaceReadableAllow call once past the filter: the
/// kernel validates the buffer and forwards it to the driver, which holds
/// userspace-readable buffers itself; only the return-value slot of the
/// process changes. An invalid buffer or missing driver is refused with
/// the caller's parameters.
pub open spec fn userspace_readable_effect(
    oldp: Process,
    newp: Process,
    d: usize,
    sub: usize,
    addr: usize,
    len: usize,
) -> bool {
    exists|r: SyscallReturn|
        {
            &&& newp == #[trigger] with_return(oldp, r)
            &&& (r is UserspaceReadableAllowSuccess || r is UserspaceReadableAllowFailure)
            &&& (!oldp.rw_buffer_valid(addr, len) ==> (r matches
            SyscallReturn::UserspaceReadableAllowFailure(e, a, l) && a == addr && l == len && (e
                == ErrorCode::NODEVICE || e == ErrorCode::INVAL)))
        }
}

/// One of the error returns the filter policy may impose: the process
/// receives a plain failure and nothing else changes — in particular it
/// stays Running and keeps its timeslice.
pub open spec fn filtered_effect(oldp: Process, newp: Process) -> bool {
    exists|e: ErrorCode| newp == #[trigger] with_return(oldp, SyscallReturn::Failure(e))
}

/// What one serviced system call does to the calling process (in slot `i`)
/// and to the kernel's accounting, for each system-call class. The
/// filterable classes (Subscribe, Command, the Allows) admit the filter
/// rejection alternative.
pub open spec fn syscall_effect(ko: Kernel, kn: Kernel, i: int, syscall: Syscall) -> bool {
    let oldp = ko.spec_process_at(i)->0;
    let newp = kn.spec_process_at(i)->0;
    match syscall {
        Syscall::Yield { which, address } => {
            &&& yield_effect(oldp, newp, which, address)
            &&& ko.spec_work() == kn.spec_work() + (if newp.state is Yielded {
                1int
            } else {
                0int
            })
            &&& Kernel::same_registry(ko, kn)
        },
        Syscall::Subscribe { driver_number, subdriver_number, upcall_ptr, appdata } => {
            &&& ((filtered_effect(oldp, newp) && kn.spec_work() == ko.spec_work())
                || subscribe_syscall_effect(
                oldp,
                newp,
                driver_number,
                subdriver_number,
                upcall_ptr,
                appdata,
            ))
            &&& kn.spec_work() + oldp.tasks@.len() == ko.spec_work() + newp.tasks@.len()
            &&& Kernel::same_registry(ko, kn)
        },
        Syscall::Command { .. } => {
            &&& exists|r: SyscallReturn|
                newp == with_return(oldp, r) && #[trigger] command_style(r)
            &&& kn.spec_work() == ko.spec_work()
            &&& Kernel::same_registry(ko, kn)
        },
        Syscall::ReadWriteAllow { driver_number, subdriver_number, allow_address, allow_size } => {
            &&& (filtered_effect(oldp, newp) || allow_rw_syscall_effect(
                oldp,
                newp,
                driver_number,
                subdriver_number,
                allow_address,
                allow_size,
            ))
            &&& kn.spec_work() == ko.spec_work()
            &&& Kernel::same_registry(ko, kn)
        },
        Syscall::UserspaceReadableAllow {
            driver_number,
            subdriver_number,
            allow_address,
            allow_size,
        } => {
            &&& (filtered_effect(oldp, newp) || userspace_readable_effect(
                oldp,
                newp,
                driver_number,
                subdriver_number,
                allow_address,
                allow_size,
            ))
            &&& kn.spec_work() == ko.spec_work()
            &&& Kernel::same_registry(ko, kn)
        },
        Syscall::ReadOnlyAllow { driver_number, subdriver_number, allow_address, allow_size } => {
            &&& (filtered_effect(oldp, newp) || allow_ro_syscall_effect(
                oldp,
                newp,
                driver_number,
                subdriver_number,
                allow_address,
                allow_size,
            ))
            &&& kn.spec_work() == ko.spec_work()
            &&& Kernel::same_registry(ko, kn)
        },
        Syscall::Memop { operand, arg0 } => {
            &&& memop_effect(oldp, newp, operand, arg0)
            &&& kn.spec_work() == ko.spec_work()
            &&& Kernel::same_registry(ko, kn)
        },
        Syscall::Exit { which, completion_code } => {
            &&& exit_effect(
                oldp,
                newp,
                which,
                completion_code,
                ko.spec_identifier_max(),
                ko.spec_identifier_max() < usize::MAX,
            )
            &&& ko.spec_work() + (if which == 1 && ko.spec_identifier_max() < usize::MAX {
                1int
            } else {
                0int
            }) == kn.spec_work() + (if which <= 1 {
                1int + oldp.tasks@.len()
            } else {
                0int
            })
            &&& kn.spec_grants_finalized() == ko.spec_grants_finalized()
            &&& kn.spec_grant_count() == ko.spec_grant_count()
            &&& kn.spec_grant_layouts() == ko.spec_grant_layouts()
            &&& kn.spec_external_work() == ko.spec_external_work()
            &&& kn.spec_identifier_max() == ko.spec_identifier_max() + (
            if which == 1 && ko.spec_identifier_max() < usize::MAX {
                1int
            } else {
                0int
            })
        },
    }
}

impl Kernel {
    /// Service a UserspaceReadableAllow system call for the process in
    /// slot `i`: the driver keeps such buffers itself, so the kernel only
    /// validates the buffer, forwards it, and reports what came back.
    fn handle_userspace_readable_allow<D: DriverTable>(
        &mut self,
        drivers: &mut D,
        i: usize,
        driver_number: usize,
        subdriver_number: usize,
        allow_address: usize,
        allow_size: usize,
    )
        requires
            old(self).wf(),
            i < old(self).spec_process_count(),
            old(self).spec_process_at(i as int) is Some,
        ensures
            final(self).wf(),
            Kernel::same_registry(*old(self), *final(self)),
            final(self).spec_work() == old(self).spec_work(),
            final(self).spec_process_count() == old(self).spec_process_count(),
            final(self).spec_processes() == old(self).spec_processes().update(
                i as int,
                final(self).spec_processes()[i as int],
            ),
            final(self).spec_process_at(i as int) is Some,
            userspace_readable_effect(
                old(self).spec_process_at(i as int)->0,
                final(self).spec_process_at(i as int)->0,
                driver_number,
                subdriver_number,
                allow_address,
                allow_size,
            ),
    {
        let (pid, valid): (ProcessId, bool) = match &self.processes[i] {
            Some(p) => (p.processid(), p.rw_buffer_in_bounds(allow_address, allow_size)),
            None => unreached(),
        };
        let rv: SyscallReturn = if !drivers.has_driver(driver_number) {
            SyscallReturn::UserspaceReadableAllowFailure(
                ErrorCode::NODEVICE,
                allow_address,
                allow_size,
            )
        } else if !valid {
            SyscallReturn::UserspaceReadableAllowFailure(
                ErrorCode::INVAL,
                allow_address,
                allow_size,
            )
        } else {
            match drivers.allow_userspace_readable(
                driver_number,
                subdriver_number,
                pid,
                allow_address,
                allow_size,
            ) {
                Some(Ok((ptr, len))) => SyscallReturn::UserspaceReadableAllowSuccess(ptr, len),
                Some(Err((e, ptr, len))) => SyscallReturn::UserspaceReadableAllowFailure(
                    e,
                    ptr,
                    len,
                ),
                None => SyscallReturn::UserspaceReadableAllowFailure(
                    ErrorCode::NODEVICE,
                    allow_address,
                    allow_size,
                ),
            }
        };
        self.set_return(i, rv);
    }

    /// Deliver the filter policy's verdict on a filterable system call to
    /// the process in slot `i`: a rejection `Err(e)` sets exactly
    /// `Failure(e)` as the process's return value and changes nothing
    /// else — in particular the process stays Running and keeps its
    /// timeslice — while `Ok` leaves the kernel untouched. Returns whether
    /// the call was rejected.
    pub fn apply_filter_verdict(&mut self, i: usize, verdict: Result<(), ErrorCode>) -> (rejected:
        bool)
        requires
            old(self).wf(),
            i < old(self).spec_process_count(),
            old(self).spec_process_at(i as int) is Some,
        ensures
            final(self).wf(),
            Kernel::same_registry(*old(self), *final(self)),
            final(self).spec_work() == old(self).spec_work(),
            match verdict {
                Ok(()) => !rejected && *final(self) == *old(self),
                Err(e) => rejected && final(self).spec_processes() == old(
                    self,
                ).spec_processes().update(
                    i as int,
                    Some(
                        with_return(
                            old(self).spec_processes()[i as int]->0,
                            SyscallReturn::Failure(e),
                        ),
                    ),
                ),
            },
    {
        match verdict {
            Ok(()) => false,
            Err(response) => {
                self.set_return(i, SyscallReturn::Failure(response));
                true
            },
        }
    }

    /// Service one system call from the Running process in slot
    /// `process_index`. The board's filter policy is consulted first for
    /// the filterable classes (Command, Subscribe, and the Allows): a
    /// rejection hands the error straight back without ending the
    /// process's turn. Yield, Exit, and Memop cannot be filtered.
    pub fn handle_syscall<S, T, W, F: SyscallFilter, PF, CB, D: DriverTable, I>(
        &mut self,
        resources: &mut KernelResources<S, T, W, F, PF, CB, D, I>,
        process_index: usize,
        syscall: Syscall,
    )
        requires
            old(self).wf(),
            process_index < old(self).spec_process_count(),
            old(self).spec_process_at(process_index as int) is Some,
            (old(self).spec_process_at(process_index as int)->0).state is Running,
        ensures
            final(self).wf(),
            final(self).spec_process_count() == old(self).spec_process_count(),
            forall|j: int|
                0 <= j < old(self).spec_process_count() && j != process_index
                    ==> #[trigger] final(self).spec_process_at(j) == old(self).spec_process_at(j),
            final(self).spec_processes() == old(self).spec_processes().update(
                process_index as int,
                final(self).spec_processes()[process_index as int],
            ),
            final(self).spec_process_at(process_index as int) is Some,
            final(resources).ipc is Some == old(resources).ipc is Some,
            syscall_effect(*old(self), *final(self), process_index as int, syscall),
    {
        let i = process_index;
        // Enforce the platform's filter before dispatching a filterable
        // class. Rejection reports the error without costing the process
        // its timeslice.
        if syscall.filterable() {
            let verdict: Result<(), ErrorCode> = match &self.processes[i] {
                Some(p) => resources.syscall_filter.filter_syscall(p, &syscall),
                None => unreached(),
            };
            let ghost v = verdict;
            if self.apply_filter_verdict(i, verdict) {
                proof {
                    assert(self.spec_process_at(i as int)->0 == with_return(
                        old(self).spec_process_at(i as int)->0,
                        SyscallReturn::Failure(v->Err_0),
                    ));
                    assert(filtered_effect(
                        old(self).spec_process_at(i as int)->0,
                        self.spec_process_at(i as int)->0,
                    ));
                    assert(command_style(SyscallReturn::Failure(v->Err_0)));
                }
                return ;
            }
        }
        match syscall {
            Syscall::Memop { operand, arg0 } => {
                self.handle_memop(i, operand, arg0);
            },
            Syscall::Yield { which, address } => {
                self.handle_yield(i, which, address);
            },
            Syscall::Subscribe { driver_number, subdriver_number, upcall_ptr, appdata } => {
                self.handle_subscribe(
                    &mut resources.drivers,
                    i,
                    driver_number,
                    subdriver_number,
                    upcall_ptr,
                    appdata,
                );
            },
            Syscall::Command { driver_number, subdriver_number, arg0, arg1 } => {
                self.handle_command(
                    &mut resources.drivers,
                    i,
                    driver_number,
                    subdriver_number,
                    arg0,
                    arg1,
                );
            },
            Syscall::ReadWriteAllow {
                driver_number,
                subdriver_number,
                allow_address,
                allow_size,
            } => {
                self.handle_allow_rw(
                    &mut resources.drivers,
                    i,
                    driver_number,
                    subdriver_number,
                    allow_address,
                    allow_size,
                );
            },
            Syscall::UserspaceReadableAllow {
                driver_number,
                subdriver_number,
                allow_address,
                allow_size,
            } => {
                self.handle_userspace_readable_allow(
                    &mut resources.drivers,
                    i,
                    driver_number,
                    subdriver_number,
                    allow_address,
                    allow_size,
                );
            },
            Syscall::ReadOnlyAllow {
                driver_number,
                subdriver_number,
                allow_address,
                allow_size,
            } => {
                self.handle_allow_ro(
                    &mut resources.drivers,
                    i,
                    driver_number,
                    subdriver_number,
                    allow_address,
                    allow_size,
                );
            },
            Syscall::Exit { which, completion_code } => {
                self.handle_exit(i, which, completion_code);
            },
        }
    }
}

/// Bound on the dispatcher's service loop, so that one dispatch provably
/// terminates even against a scheduler timer that never expires.
pub const DISPATCH_SERVICE_BOUND: u64 = 0xFFFF_FFFF_FFFF_FFFF;

/// Whether no task of `p` is an IPC task. Dispatching an IPC task on a
/// board without an IPC service is a kernel-consistency violation.
pub open spec fn no_ipc_tasks(p: Process) -> bool {
    forall|k: int| 0 <= k < p.tasks@.len() ==> !((#[trigger] p.tasks@[k]) is IPC)
}

/// Whether some other admitted or runnable process already carries the
/// same fixed identity as the process in slot `i`. A `LocallyUnique`
/// identity never collides.
pub open spec fn short_id_collides(s: Seq<Option<Process>>, i: int) -> bool {
    exists|j: int|
        0 <= j < s.len() && j != i && s[j] is Some && (s[i]->0).short_id is Fixed && (s[j]
            ->0).short_id == (s[i]->0).short_id && state_is_schedulable((s[j]->0).state)
}

/// The function call queued to start an admitted process: its first stack
/// frame.
pub open spec fn spec_init_task() -> Task {
    Task::FunctionCall(
        FunctionCall {
            source: FunctionCallSource::Kernel,
            argument0: 0,
            argument1: 0,
            argument2: 0,
            argument3: 0,
            pc: 0,
        },
    )
}

impl Kernel {
    /// Count the process's timeslice expiry for its debug accounting.
    fn note_timeslice_expired(&mut self, i: usize)
        requires
            old(self).wf(),
            i < old(self).spec_process_count(),
            old(self).spec_process_at(i as int) is Some,
        ensures
            final(self).wf(),
            Kernel::same_registry(*old(self), *final(self)),
            final(self).spec_work() == old(self).spec_work(),
            final(self).spec_processes() == old(self).spec_processes().update(
                i as int,
                Some(
                    Process {
                        timeslice_expirations: (final(self).spec_processes()[i as int]
                            ->0).timeslice_expirations,
                        ..old(self).spec_processes()[i as int]->0
                    },
                ),
            ),
    {
        let ghost oldk = *self;
        {
            let p = self.proc_mut(i);
            if p.timeslice_expirations < usize::MAX {
                p.timeslice_expirations = p.timeslice_expirations + 1;
            }
        }
        proof {
            lemma_total_work_update(oldk.processes@, i as int, self.processes@[i as int]);
        }
    }

    /// Whether the process in slot `i` carries an identity no other
    /// admitted or runnable process already holds.
    fn has_unique_identifier(&self, i: usize) -> (r: bool)
        requires
            i < self.spec_process_count(),
            self.spec_process_at(i as int) is Some,
        ensures
            r == !short_id_collides(self.spec_processes(), i as int),
    {
        let own: ShortID = match &self.processes[i] {
            Some(p) => p.short_id,
            None => unreached(),
        };
        let fixed: u32 = match own {
            ShortID::LocallyUnique => {
                return true;
            },
            ShortID::Fixed(v) => v,
        };
        let mut j: usize = 0;
        while j < self.processes.len()
            invariant
                j <= self.spec_process_count(),
                i < self.spec_process_count(),
                self.spec_processes()[i as int] is Some,
                (self.spec_processes()[i as int]->0).short_id == ShortID::Fixed(fixed),
                forall|k: int|
                    0 <= k < j && k != i && (#[trigger] self.spec_processes()[k]) is Some ==> !((
                    self.spec_processes()[k]->0).short_id == ShortID::Fixed(fixed)
                        && state_is_schedulable((self.spec_processes()[k]->0).state)),
            decreases self.spec_process_count() - j,
        {
            if j != i {
                match &self.processes[j] {
                    Some(other) => {
                        let same: bool = match other.short_id {
                            ShortID::Fixed(v) => v == fixed,
                            ShortID::LocallyUnique => false,
                        };
                        let schedulable: bool = match other.state {
                            State::Running => true,
                            State::Yielded => true,
                            State::CredentialsApproved => true,
                            State::StoppedRunning => true,
                            State::StoppedYielded => true,
                            _ => false,
                        };
                        if same && schedulable {
                            return false;
                        }
                    },
                    None => {},
                }
            }
            j = j + 1;
        }
        true
    }

    /// Admit (or reject) the credential-approved process in slot `i`. The
    /// pending admission is the unit of work being retired here, whatever
    /// the outcome. A process whose identity is unique gets its first
    /// function call queued and waits Yielded; a duplicate identity is
    /// terminated without a completion code.
    fn handle_credentials_approved(&mut self, i: usize)
        requires
            old(self).wf(),
            i < old(self).spec_process_count(),
            old(self).spec_process_at(i as int) is Some,
            (old(self).spec_process_at(i as int)->0).state is CredentialsApproved,
        ensures
            final(self).wf(),
            Kernel::same_registry(*old(self), *final(self)),
            final(self).spec_process_count() == old(self).spec_process_count(),
            final(self).spec_processes() == old(self).spec_processes().update(
                i as int,
                final(self).spec_processes()[i as int],
            ),
            final(self).spec_process_at(i as int) is Some,
            ({
                let oldp = old(self).spec_process_at(i as int)->0;
                let newp = final(self).spec_process_at(i as int)->0;
                if !short_id_collides(old(self).spec_processes(), i as int) {
                    &&& newp == (Process { state: State::Yielded, tasks: newp.tasks, ..oldp })
                    &&& newp.tasks@ == oldp.tasks@.push(spec_init_task())
                    &&& final(self).spec_work() == old(self).spec_work()
                } else {
                    &&& newp == (Process {
                        state: State::Terminated,
                        tasks: newp.tasks,
                        completion_code: Some(None),
                        ..oldp
                    })
                    &&& newp.tasks@.len() == 0
                    &&& final(self).spec_work() + 1 + oldp.tasks@.len() == old(self).spec_work()
                }
            }),
    {
        let ghost oldk = *self;
        proof {
            lemma_total_work_ge_slot(oldk.processes@, i as int);
        }
        // The pending admission is this process's unit of work; it is
        // consumed now whether or not the process is admitted.
        let unique: bool = self.has_unique_identifier(i);
        if unique {
            {
                let p = self.proc_mut(i);
                p.state = State::Yielded;
                p.tasks.push(
                    Task::FunctionCall(
                        FunctionCall {
                            source: FunctionCallSource::Kernel,
                            argument0: 0,
                            argument1: 0,
                            argument2: 0,
                            argument3: 0,
                            pc: 0,
                        },
                    ),
                );
            }
            proof {
                lemma_total_work_update(oldk.processes@, i as int, self.processes@[i as int]);
            }
        } else {
            let mut retired: usize = 0;
            {
                let p = self.proc_mut(i);
                retired = p.tasks.len() + 1;
                p.tasks = Vec::new();
                p.state = State::Terminated;
                p.completion_code = Some(None);
            }
            proof {
                lemma_total_work_update(oldk.processes@, i as int, self.processes@[i as int]);
            }
            self.work = self.work - retired;
        }
    }

    /// Pop the front task of the Yielded process in slot `i`. A function
    /// call becomes the process's next execution: the process turns
    /// Running with the call installed. An IPC task only leaves the queue;
    /// the dispatcher routes it to the IPC service.
    fn take_yielded_task(&mut self, i: usize) -> (t: Task)
        requires
            old(self).wf(),
            i < old(self).spec_process_count(),
            old(self).spec_process_at(i as int) is Some,
            (old(self).spec_process_at(i as int)->0).state is Yielded,
            (old(self).spec_process_at(i as int)->0).tasks@.len() > 0,
        ensures
            final(self).wf(),
            Kernel::same_registry(*old(self), *final(self)),
            final(self).spec_process_count() == old(self).spec_process_count(),
            final(self).spec_processes() == old(self).spec_processes().update(
                i as int,
                final(self).spec_processes()[i as int],
            ),
            final(self).spec_process_at(i as int) is Some,
            t == (old(self).spec_process_at(i as int)->0).tasks@[0],
            ({
                let oldp = old(self).spec_process_at(i as int)->0;
                let newp = final(self).spec_process_at(i as int)->0;
                &&& newp.tasks@ == oldp.tasks@.drop_first()
                &&& (match t {
                    Task::FunctionCall(ccb) => newp == (Process {
                        state: State::Running,
                        tasks: newp.tasks,
                        installed_function: Some(ccb),
                        ..oldp
                    }) && final(self).spec_work() == old(self).spec_work(),
                    Task::IPC(_, _) => newp == (Process { tasks: newp.tasks, ..oldp })
                        && final(self).spec_work() + 1 == old(self).spec_work(),
                })
            }),
    {
        let ghost oldk = *self;
        proof {
            lemma_total_work_ge_slot(oldk.processes@, i as int);
        }
        let task: Task;
        let installed: bool;
        {
            let p = self.proc_mut(i);
            task = p.tasks.remove(0);
            match task {
                Task::FunctionCall(ccb) => {
                    p.state = State::Running;
                    p.installed_function = Some(ccb);
                    installed = true;
                },
                Task::IPC(_, _) => {
                    installed = false;
                },
            }
        }
        proof {
            lemma_total_work_update(oldk.processes@, i as int, self.processes@[i as int]);
        }
        if !installed {
            self.work = self.work - 1;
        }
        task
    }

    /// Transfer control to the process in slot `process_index` and service
    /// it until it has no work left, its timeslice expires, the scheduler
    /// preempts it, or it stops. System calls are handled here, by the
    /// kernel thread, between context switches; the time they take is
    /// charged to the process.
    ///
    /// With `timeslice_us` of `None` the process runs cooperatively (no
    /// timer); otherwise the scheduler timer bounds its execution and the
    /// returned time is the portion of the timeslice consumed — exactly the
    /// whole timeslice when the reason is `TimesliceExpired`, and never
    /// more than the timeslice otherwise.
    pub fn do_process<
        C: Chip,
        S: Scheduler,
        T: SchedulerTimer,
        W,
        F: SyscallFilter,
        PF: ProcessFault,
        CB: ContextSwitchCallback,
        D: DriverTable,
        I: IpcService,
    >(
        &mut self,
        resources: &mut KernelResources<S, T, W, F, PF, CB, D, I>,
        chip: &mut C,
        process_index: usize,
        timeslice_us: Option<u32>,
    ) -> (r: (StoppedExecutingReason, Option<u32>))
        requires
            old(self).wf(),
            process_index < old(self).spec_process_count(),
            old(self).spec_process_at(process_index as int) is Some,
            old(resources).ipc is Some || no_ipc_tasks(
                old(self).spec_process_at(process_index as int)->0,
            ),
        ensures
            final(self).wf(),
            final(self).spec_process_count() == old(self).spec_process_count(),
            forall|j: int|
                0 <= j < old(self).spec_processes().len() && j != process_index
                    ==> #[trigger] final(self).spec_processes()[j] == old(self).spec_processes()[j],
            final(self).spec_process_at(process_index as int) is Some,
            final(self).spec_grants_finalized() == old(self).spec_grants_finalized(),
            final(self).spec_grant_count() == old(self).spec_grant_count(),
            final(self).spec_grant_layouts() == old(self).spec_grant_layouts(),
            final(self).spec_external_work() == old(self).spec_external_work(),
            final(self).spec_identifier_max() >= old(self).spec_identifier_max(),
            final(resources).ipc is Some == old(resources).ipc is Some,
            no_ipc_tasks(old(self).spec_process_at(process_index as int)->0) ==> no_ipc_tasks(
                final(self).spec_process_at(process_index as int)->0,
            ),
            r.1 is Some <==> timeslice_us is Some,
            timeslice_us is Some && r.0 == StoppedExecutingReason::TimesliceExpired ==> r.1
                == Some(timeslice_us->0),
            r.1 is Some ==> r.1->0 <= timeslice_us->0,
            r.0 == StoppedExecutingReason::NoWorkLeft ==> !(final(self).spec_process_at(
                process_index as int,
            )->0).spec_ready(),
            r.0 == StoppedExecutingReason::Stopped ==> (final(self).spec_process_at(
                process_index as int,
            )->0).state is StoppedRunning || (final(self).spec_process_at(
                process_index as int,
            )->0).state is StoppedYielded,
    {
        let i = process_index;
        let use_timer: bool = timeslice_us.is_some();
        let timeslice: u32 = match timeslice_us {
            Some(t) => t,
            None => 0,
        };
        // Start the timeslice. The kernel keeps running between context
        // switches, so no expiry interrupt is needed yet.
        if use_timer {
            resources.scheduler_timer.reset();
            resources.scheduler_timer.start(timeslice);
        }
        let mut return_reason: StoppedExecutingReason = StoppedExecutingReason::NoWorkLeft;
        let mut iters: u64 = 0;
        loop
            invariant
                self.wf(),
                i < self.spec_process_count(),
                self.spec_process_count() == old(self).spec_process_count(),
                self.spec_process_at(i as int) is Some,
                forall|j: int|
                    0 <= j < old(self).spec_processes().len() && j != i
                        ==> #[trigger] self.spec_processes()[j] == old(self).spec_processes()[j],
                self.spec_grants_finalized() == old(self).spec_grants_finalized(),
                self.spec_grant_count() == old(self).spec_grant_count(),
                self.spec_grant_layouts() == old(self).spec_grant_layouts(),
                self.spec_external_work() == old(self).spec_external_work(),
                self.spec_identifier_max() >= old(self).spec_identifier_max(),
                resources.ipc is Some == old(resources).ipc is Some,
                no_ipc_tasks(old(self).spec_process_at(i as int)->0) ==> no_ipc_tasks(
                    self.spec_process_at(i as int)->0,
                ),
                old(resources).ipc is Some || no_ipc_tasks(
                    old(self).spec_process_at(i as int)->0,
                ),
                iters <= DISPATCH_SERVICE_BOUND,
            ensures
                self.wf(),
                i < self.spec_process_count(),
                self.spec_process_count() == old(self).spec_process_count(),
                self.spec_process_at(i as int) is Some,
                forall|j: int|
                    0 <= j < old(self).spec_processes().len() && j != i
                        ==> #[trigger] self.spec_processes()[j] == old(self).spec_processes()[j],
                self.spec_grants_finalized() == old(self).spec_grants_finalized(),
                self.spec_grant_count() == old(self).spec_grant_count(),
                self.spec_grant_layouts() == old(self).spec_grant_layouts(),
                self.spec_external_work() == old(self).spec_external_work(),
                self.spec_identifier_max() >= old(self).spec_identifier_max(),
                resources.ipc is Some == old(resources).ipc is Some,
                no_ipc_tasks(old(self).spec_process_at(i as int)->0) ==> no_ipc_tasks(
                    self.spec_process_at(i as int)->0,
                ),
                return_reason == StoppedExecutingReason::NoWorkLeft ==> !(self.spec_process_at(
                    i as int,
                )->0).spec_ready(),
                return_reason == StoppedExecutingReason::Stopped ==> (self.spec_process_at(
                    i as int,
                )->0).state is StoppedRunning || (self.spec_process_at(
                    i as int,
                )->0).state is StoppedYielded,
            decreases DISPATCH_SERVICE_BOUND - iters,
        {
            if iters >= DISPATCH_SERVICE_BOUND {
                // The service bound is unreachable in practice; stopping
                // here keeps the kernel thread live against a timer that
                // never expires.
                return_reason = StoppedExecutingReason::KernelPreemption;
                break ;
            }
            iters = iters + 1;
            // Stop when the remaining timeslice is too short to be worth a
            // context switch.
            let stop_running: bool = if use_timer {
                match resources.scheduler_timer.get_remaining_us() {
                    Some(us) => us <= MIN_QUANTA_THRESHOLD_US,
                    None => true,
                }
            } else {
                false
            };
            if stop_running {
                self.note_timeslice_expired(i);
                return_reason = StoppedExecutingReason::TimesliceExpired;
                break ;
            }
            // Ask the scheduler whether this process should continue.
            let pid: ProcessId = match &self.processes[i] {
                Some(p) => p.processid(),
                None => unreached(),
            };
            let pending = chip.has_pending_interrupts();
            let deferred = chip.has_pending_deferred_calls();
            if !resources.scheduler.continue_process(pid, pending, deferred) {
                return_reason = StoppedExecutingReason::KernelPreemption;
                break ;
            }
            // A process that is not ready (for example, stopped after a
            // fault) is not run.
            let (ready, state): (bool, State) = match &self.processes[i] {
                Some(p) => (p.ready(), p.state),
                None => unreached(),
            };
            if !ready {
                return_reason = StoppedExecutingReason::NoWorkLeft;
                break ;
            }
            match state {
                State::Running => {
                    // Set up the hardware and run the process until it
                    // returns to the kernel.
                    match &self.processes[i] {
                        Some(p) => {
                            resources.context_switch_callback.context_switch_hook(p);
                        },
                        None => {},
                    }
                    chip.mpu_configure_for(pid);
                    chip.mpu_enable_app();
                    if use_timer {
                        resources.scheduler_timer.arm();
                    }
                    let context_switch_reason = chip.switch_to_process(pid);
                    if use_timer {
                        resources.scheduler_timer.disarm();
                    }
                    chip.mpu_disable_app();
                    match context_switch_reason {
                        Some(ContextSwitchReason::Fault) => {
                            // Give the board's fault hook a chance to
                            // recover the process before marking it.
                            let handled: bool = match &self.processes[i] {
                                Some(p) => resources.process_fault.process_fault_hook(p).is_ok(),
                                None => unreached(),
                            };
                            if !handled {
                                self.fault_process(i);
                            }
                        },
                        Some(ContextSwitchReason::SyscallFired { syscall }) => {
                            let ghost before = self.spec_process_at(i as int)->0;
                            self.handle_syscall(resources, i, syscall);
                            proof {
                                if no_ipc_tasks(before) {
                                    match syscall {
                                        Syscall::Subscribe {
                                            driver_number,
                                            subdriver_number,
                                            ..
                                        } => {
                                            lemma_filter_no_ipc(
                                                before.tasks@,
                                                UpcallId {
                                                    driver_num: driver_number,
                                                    subscribe_num: subdriver_number,
                                                },
                                            );
                                        },
                                        _ => {},
                                    }
                                }
                            }
                        },
                        Some(ContextSwitchReason::Interrupted) => {
                            let expired: bool = if use_timer {
                                resources.scheduler_timer.get_remaining_us().is_none()
                            } else {
                                false
                            };
                            if expired {
                                // The interrupt was the timeslice expiry.
                                self.note_timeslice_expired(i);
                                return_reason = StoppedExecutingReason::TimesliceExpired;
                                break ;
                            }
                            // Otherwise loop: the next iteration decides
                            // whether to keep running or break to service
                            // the interrupt.
                        },
                        None => {
                            // The switch itself went wrong: fault the
                            // process.
                            self.fault_process(i);
                        },
                    }
                },
                State::Yielded => {
                    // Deliver one queued task; readiness of a Yielded
                    // process means its queue is non-empty. A function call
                    // is installed as the process's next execution; an IPC
                    // task is routed to the IPC service.
                    let task: Task = self.take_yielded_task(i);
                    match task {
                        Task::FunctionCall(_) => {},
                        Task::IPC(otherapp, ipc_type) => {
                            match &mut resources.ipc {
                                Some(svc) => {
                                    let _ = svc.schedule_upcall(pid, otherapp, ipc_type);
                                },
                                None => {
                                    // Unreachable: an IPC task without an
                                    // IPC service is excluded by the
                                    // caller's obligation.
                                    proof {
                                        assert(false);
                                    }
                                },
                            }
                        },
                    }
                },
                State::CredentialsApproved => {
                    self.handle_credentials_approved(i);
                },
                State::StoppedRunning => {
                    return_reason = StoppedExecutingReason::Stopped;
                    break ;
                },
                State::StoppedYielded => {
                    return_reason = StoppedExecutingReason::Stopped;
                    break ;
                },
                State::Faulted => {
                    // Unreachable: a ready process is never in an
                    // unrunnable state.
                    unreached()
                },
                State::Terminated => {
                    unreached()
                },
                State::CredentialsUnchecked => {
                    unreached()
                },
                State::CredentialsFailed => {
                    unreached()
                },
            }
        }
        // Account the time the process consumed for the scheduler. The
        // timer must not be read again once it reported expiry.
        let time_executed_us: Option<u32> = if use_timer {
            let expired: bool = match return_reason {
                StoppedExecutingReason::TimesliceExpired => true,
                _ => false,
            };
            if expired {
                Some(timeslice)
            } else {
                match resources.scheduler_timer.get_remaining_us() {
                    Some(remaining) => {
                        if remaining >= timeslice {
                            Some(0)
                        } else {
                            Some(timeslice - remaining)
                        }
                    },
                    None => Some(timeslice),
                }
            }
        } else {
            None
        };
        // Quiet the timer so it cannot fire while the chip sleeps.
        if use_timer {
            resources.scheduler_timer.reset();
        }
        (return_reason, time_executed_us)
    }
}

/// A work counter at zero means the system is idle: no process is
/// Running or awaiting admission and no task is queued anywhere, so the
/// scheduler's sleep test can never put a runnable system to sleep.
pub proof fn lemma_no_work_means_idle(k: Kernel)
    requires
        k.wf(),
        k.spec_work() == 0,
    ensures
        forall|j: int|
            0 <= j < k.spec_process_count() && (#[trigger] k.spec_processes()[j]) is Some ==> {
                let p = k.spec_processes()[j]->0;
                &&& !(p.state is Running)
                &&& !(p.state is CredentialsApproved)
                &&& p.tasks@.len() == 0
            },
{
    assert forall|j: int|
        0 <= j < k.spec_process_count() && (#[trigger] k.spec_processes()[j]) is Some implies {
        let p = k.spec_processes()[j]->0;
        &&& !(p.state is Running)
        &&& !(p.state is CredentialsApproved)
        &&& p.tasks@.len() == 0
    } by {
        lemma_total_work_ge_slot(k.spec_processes(), j);
    }
}

/// After a subscribe reports success, the grant reads back the newly
/// installed descriptor and no queued delivery of that upcall remains: a
/// pending delivery with the old function pointer can never fire.
pub proof fn lemma_subscribe_swap_is_clean(
    oldp: Process,
    newp: Process,
    d: usize,
    sub: usize,
    ptr: usize,
    appdata: usize,
)
    requires
        subscribe_success_effect(oldp, newp, d, sub, ptr, appdata),
    ensures
        upcall_slot_of(newp, d, sub) == (UpcallSlot { fn_ptr: ptr, appdata }),
        newp.syscall_return == Some(
            SyscallReturn::SubscribeSuccess(
                upcall_slot_of(oldp, d, sub).fn_ptr,
                upcall_slot_of(oldp, d, sub).appdata,
            ),
        ),
        forall|k: int|
            0 <= k < newp.tasks@.len() ==> !is_upcall_task(
                #[trigger] newp.tasks@[k],
                UpcallId { driver_num: d, subscribe_num: sub },
            ),
{
    let id = UpcallId { driver_num: d, subscribe_num: sub };
    assert forall|k: int| 0 <= k < newp.tasks@.len() implies !is_upcall_task(
        #[trigger] newp.tasks@[k],
        id,
    ) by {
        oldp.tasks@.lemma_filter_pred(keeps_other_upcalls(id), k);
    }
}

/// A restarted process carries a fresh generation identifier: any
/// identifier minted before the restart no longer names it, so stale
/// identifiers held by capsules are rejected by process lookup.
pub proof fn lemma_restart_invalidates_stale_identifier(
    s: Seq<Option<Process>>,
    s2: Seq<Option<Process>>,
    idmax: nat,
    i: int,
    pid: ProcessId,
)
    requires
        wf_process_table(s, idmax),
        0 <= i < s.len(),
        s2.len() == s.len(),
        s[i] is Some,
        s2[i] is Some,
        pid == (s[i]->0).spec_processid(),
        pid.index == i,
        (s2[i]->0).id >= idmax,
    ensures
        spec_processid_valid(s, pid),
        !spec_processid_valid(s2, pid),
{
}

/// Whether no loaded process holds a queued IPC task.
pub open spec fn all_processes_no_ipc(s: Seq<Option<Process>>) -> bool {
    forall|j: int| 0 <= j < s.len() && s[j] is Some ==> no_ipc_tasks((#[trigger] s[j])->0)
}

impl Kernel {
    /// Perform one iteration of the core kernel loop: tickle the watchdog;
    /// run kernel work (interrupt bottom halves and deferred calls) if the
    /// scheduler asks for it; otherwise dispatch the process the scheduler
    /// chose and report the outcome back; and when nothing is runnable, put
    /// the chip to sleep — but only after re-checking, inside an
    /// interrupts-masked section, that no interrupt or deferred call
    /// arrived after the scheduler's decision: one that did would otherwise
    /// never wake the chip. `no_sleep` disables sleeping for deterministic
    /// testing.
    pub fn kernel_loop_operation<
        C: Chip,
        S: Scheduler,
        T: SchedulerTimer,
        W: WatchDog,
        F: SyscallFilter,
        PF: ProcessFault,
        CB: ContextSwitchCallback,
        D: DriverTable,
        I: IpcService,
    >(
        &mut self,
        resources: &mut KernelResources<S, T, W, F, PF, CB, D, I>,
        chip: &mut C,
        no_sleep: bool,
    )
        requires
            old(self).wf(),
            old(resources).ipc is Some || all_processes_no_ipc(old(self).spec_processes()),
        ensures
            final(self).wf(),
            final(self).spec_process_count() == old(self).spec_process_count(),
            final(self).spec_grants_finalized() == old(self).spec_grants_finalized(),
            final(self).spec_grant_count() == old(self).spec_grant_count(),
            final(self).spec_grant_layouts() == old(self).spec_grant_layouts(),
            final(self).spec_external_work() == old(self).spec_external_work(),
            final(self).spec_identifier_max() >= old(self).spec_identifier_max(),
            final(resources).ipc is Some == old(resources).ipc is Some,
            old(resources).ipc is Some || all_processes_no_ipc(final(self).spec_processes()),
    {
        resources.watchdog.tickle();
        let pending = chip.has_pending_interrupts();
        let deferred = chip.has_pending_deferred_calls();
        if resources.scheduler.do_kernel_work_now(pending, deferred) {
            // Kernel work first: interrupt bottom halves and deferred
            // calls. This is how chip and capsule code gets to run.
            chip.service_pending_interrupts();
            chip.service_deferred_calls();
        } else {
            let decision = resources.scheduler.next(self);
            match decision {
                SchedulingDecision::RunProcess(processid, timeslice_us) => {
                    if self.processid_is_valid(&processid) {
                        let index = processid.index;
                        let (reason, time_executed) = self.do_process(
                            resources,
                            chip,
                            index,
                            timeslice_us,
                        );
                        proof {
                            if !(old(resources).ipc is Some) {
                                assert forall|j: int|
                                    0 <= j < self.spec_processes().len() && (
                                    #[trigger] self.spec_processes()[j]) is Some implies no_ipc_tasks(
                                    self.spec_processes()[j]->0,
                                ) by {
                                    if j != index {
                                        assert(self.spec_processes()[j] == old(
                                            self,
                                        ).spec_processes()[j]);
                                    } else {
                                        assert(no_ipc_tasks(
                                            old(self).spec_process_at(index as int)->0,
                                        ));
                                    }
                                }
                            }
                        }
                        resources.scheduler.result(reason, time_executed);
                    }
                },
                SchedulingDecision::TrySleep => {
                    if !no_sleep {
                        chip.atomic_begin();
                        // An interrupt or deferred call that arrived after
                        // the scheduler decided to sleep would never wake
                        // the chip; re-check under masked interrupts.
                        let pending_now = chip.has_pending_interrupts();
                        let deferred_now = chip.has_pending_deferred_calls();
                        if !pending_now && !deferred_now {
                            resources.watchdog.suspend();
                            chip.sleep();
                            resources.watchdog.resume();
                        }
                        chip.atomic_end();
                    }
                },
            }
        }
    }

    /// Main loop of the kernel: run `iterations` loop operations, sleeping
    /// the chip whenever nothing is runnable. On hardware a board calls
    /// this from an outer endless loop; a bounded iteration count keeps
    /// each call provably terminating. Restricted by a capability.
    pub fn kernel_loop<
        C: Chip,
        S: Scheduler,
        T: SchedulerTimer,
        W: WatchDog,
        F: SyscallFilter,
        PF: ProcessFault,
        CB: ContextSwitchCallback,
        D: DriverTable,
        I: IpcService,
        MLC: MainLoopCapability,
    >(
        &mut self,
        resources: &mut KernelResources<S, T, W, F, PF, CB, D, I>,
        chip: &mut C,
        iterations: usize,
        _capability: &MLC,
    )
        requires
            old(self).wf(),
            old(resources).ipc is Some || all_processes_no_ipc(old(self).spec_processes()),
        ensures
            final(self).wf(),
            final(self).spec_process_count() == old(self).spec_process_count(),
            final(self).spec_grants_finalized() == old(self).spec_grants_finalized(),
            final(self).spec_grant_count() == old(self).spec_grant_count(),
            final(self).spec_grant_layouts() == old(self).spec_grant_layouts(),
            final(self).spec_external_work() == old(self).spec_external_work(),
    {
        resources.watchdog.setup();
        let mut n: usize = 0;
        while n < iterations
            invariant
                self.wf(),
                self.spec_process_count() == old(self).spec_process_count(),
                self.spec_grants_finalized() == old(self).spec_grants_finalized(),
                self.spec_grant_count() == old(self).spec_grant_count(),
                self.spec_grant_layouts() == old(self).spec_grant_layouts(),
                self.spec_external_work() == old(self).spec_external_work(),
                resources.ipc is Some == old(resources).ipc is Some,
                old(resources).ipc is Some || all_processes_no_ipc(self.spec_processes()),
            decreases iterations - n,
        {
            self.kernel_loop_operation(resources, chip, false);
            n = n + 1;
        }
    }
}

/// Appending a fresh, empty grant region changes no slot observation: an
/// empty slot reads the same as an absent one.
proof fn lemma_extension_observables(a: Process, b: Process, d: usize)
    requires
        a.wf(),
        b.wf(),
        grant_extension(a, b, d),
    ensures
        forall|d2: usize, s2: usize|
            #![trigger upcall_slot_of(b, d2, s2)]
            #![trigger upcall_slot_of(a, d2, s2)]
            upcall_slot_of(b, d2, s2) == upcall_slot_of(a, d2, s2),
        forall|d2: usize, s2: usize|
            #![trigger allow_rw_slot_of(b, d2, s2)]
            #![trigger allow_rw_slot_of(a, d2, s2)]
            allow_rw_slot_of(b, d2, s2) == allow_rw_slot_of(a, d2, s2),
        forall|d2: usize, s2: usize|
            #![trigger allow_ro_slot_of(b, d2, s2)]
            #![trigger allow_ro_slot_of(a, d2, s2)]
            allow_ro_slot_of(b, d2, s2) == allow_ro_slot_of(a, d2, s2),
        forall|d2: usize, s2: usize|
            has_upcall_slot(a, d2, s2) ==> #[trigger] has_upcall_slot(b, d2, s2),
        forall|d2: usize, s2: usize|
            has_allow_rw_slot(a, d2, s2) ==> #[trigger] has_allow_rw_slot(b, d2, s2),
        forall|d2: usize, s2: usize|
            has_allow_ro_slot(a, d2, s2) ==> #[trigger] has_allow_ro_slot(b, d2, s2),
{
    if b == a {
    } else {
        let n = a.grants@.len() as int;
        assert forall|k: int| 0 <= k < n implies b.grants@[k] == a.grants@[k] by {
            assert(b.grants@.subrange(0, n)[k] == b.grants@[k]);
        }
        assert forall|d2: usize, s2: usize|
            #![trigger upcall_slot_of(b, d2, s2)]
            #![trigger upcall_slot_of(a, d2, s2)]
            upcall_slot_of(b, d2, s2) == upcall_slot_of(a, d2, s2) by {
            if has_upcall_slot(a, d2, s2) {
                let j = choose|j: int|
                    0 <= j < a.grants@.len() && a.grants@[j].driver_num == d2 && s2
                        < a.grants@[j].upcalls@.len();
                lemma_upcall_slot_of_at(a, d2, s2, j);
                lemma_upcall_slot_of_at(b, d2, s2, j);
            } else if has_upcall_slot(b, d2, s2) {
                let j = choose|j: int|
                    0 <= j < b.grants@.len() && b.grants@[j].driver_num == d2 && s2
                        < b.grants@[j].upcalls@.len();
                if j < n {
                    assert(has_upcall_slot(a, d2, s2));
                } else {
                    lemma_upcall_slot_of_at(b, d2, s2, n);
                    assert(b.grants@[n].upcalls@[s2 as int] == (UpcallSlot {
                        fn_ptr: 0,
                        appdata: 0,
                    }));
                }
            }
        }
        assert forall|d2: usize, s2: usize|
            #![trigger allow_rw_slot_of(b, d2, s2)]
            #![trigger allow_rw_slot_of(a, d2, s2)]
            allow_rw_slot_of(b, d2, s2) == allow_rw_slot_of(a, d2, s2) by {
            if has_allow_rw_slot(a, d2, s2) {
                let j = choose|j: int|
                    0 <= j < a.grants@.len() && a.grants@[j].driver_num == d2 && s2
                        < a.grants@[j].allow_rw@.len();
                lemma_allow_rw_slot_of_at(a, d2, s2, j);
                lemma_allow_rw_slot_of_at(b, d2, s2, j);
            } else if has_allow_rw_slot(b, d2, s2) {
                let j = choose|j: int|
                    0 <= j < b.grants@.len() && b.grants@[j].driver_num == d2 && s2
                        < b.grants@[j].allow_rw@.len();
                if j < n {
                    assert(has_allow_rw_slot(a, d2, s2));
                } else {
                    lemma_allow_rw_slot_of_at(b, d2, s2, n);
                    assert(b.grants@[n].allow_rw@[s2 as int] == (AllowSlot { ptr: 0, len: 0 }));
                }
            }
        }
        assert forall|d2: usize, s2: usize|
            #![trigger allow_ro_slot_of(b, d2, s2)]
            #![trigger allow_ro_slot_of(a, d2, s2)]
            allow_ro_slot_of(b, d2, s2) == allow_ro_slot_of(a, d2, s2) by {
            if has_allow_ro_slot(a, d2, s2) {
                let j = choose|j: int|
                    0 <= j < a.grants@.len() && a.grants@[j].driver_num == d2 && s2
                        < a.grants@[j].allow_ro@.len();
                lemma_allow_ro_slot_of_at(a, d2, s2, j);
                lemma_allow_ro_slot_of_at(b, d2, s2, j);
            } else if has_allow_ro_slot(b, d2, s2) {
                let j = choose|j: int|
                    0 <= j < b.grants@.len() && b.grants@[j].driver_num == d2 && s2
                        < b.grants@[j].allow_ro@.len();
                if j < n {
                    assert(has_allow_ro_slot(a, d2, s2));
                } else {
                    lemma_allow_ro_slot_of_at(b, d2, s2, n);
                    assert(b.grants@[n].allow_ro@[s2 as int] == (AllowSlot { ptr: 0, len: 0 }));
                }
            }
        }
    }
}

/// The process is unchanged except for its grant table and return-value
/// slot; no state, queue, memory, or identity change.
pub open spec fn same_but_grants_and_return(oldp: Process, newp: Process) -> bool {
    newp == (Process { grants: newp.grants, syscall_return: newp.syscall_return, ..oldp })
}

/// A successful read-write allow: the process learns the buffer previously
/// lent at `(d, sub)` — empty on the first call — the new buffer takes its
/// place, and no other slot moves.
pub open spec fn allow_rw_success_effect(
    oldp: Process,
    newp: Process,
    d: usize,
    sub: usize,
    addr: usize,
    len: usize,
) -> bool {
    let prev = allow_rw_slot_of(oldp, d, sub);
    &&& newp.syscall_return == Some(SyscallReturn::AllowReadWriteSuccess(prev.ptr, prev.len))
    &&& allow_rw_slot_of(newp, d, sub) == (AllowSlot { ptr: addr, len })
    &&& forall|d2: usize, s2: usize|
        #![trigger allow_rw_slot_of(newp, d2, s2)]
        #![trigger allow_rw_slot_of(oldp, d2, s2)]
        !(d2 == d && s2 == sub) ==> allow_rw_slot_of(newp, d2, s2) == allow_rw_slot_of(oldp, d2, s2)
    &&& forall|d2: usize, s2: usize|
        #![trigger upcall_slot_of(newp, d2, s2)]
        #![trigger upcall_slot_of(oldp, d2, s2)]
        upcall_slot_of(newp, d2, s2) == upcall_slot_of(oldp, d2, s2)
    &&& forall|d2: usize, s2: usize|
        #![trigger allow_ro_slot_of(newp, d2, s2)]
        #![trigger allow_ro_slot_of(oldp, d2, s2)]
        allow_ro_slot_of(newp, d2, s2) == allow_ro_slot_of(oldp, d2, s2)
    &&& same_but_grants_and_return(oldp, newp)
}

/// A failed read-write allow: the caller's own (address, length) pair is
/// handed back with the error, and no slot moves (though the grant may
/// have been freshly allocated).
pub open spec fn allow_rw_failure_effect(
    oldp: Process,
    newp: Process,
    d: usize,
    sub: usize,
    addr: usize,
    len: usize,
    e: ErrorCode,
) -> bool {
    &&& newp.syscall_return == Some(SyscallReturn::AllowReadWriteFailure(e, addr, len))
    &&& forall|d2: usize, s2: usize|
        #![trigger allow_rw_slot_of(newp, d2, s2)]
        #![trigger allow_rw_slot_of(oldp, d2, s2)]
        allow_rw_slot_of(newp, d2, s2) == allow_rw_slot_of(oldp, d2, s2)
    &&& forall|d2: usize, s2: usize|
        #![trigger upcall_slot_of(newp, d2, s2)]
        #![trigger upcall_slot_of(oldp, d2, s2)]
        upcall_slot_of(newp, d2, s2) == upcall_slot_of(oldp, d2, s2)
    &&& forall|d2: usize, s2: usize|
        #![trigger allow_ro_slot_of(newp, d2, s2)]
        #![trigger allow_ro_slot_of(oldp, d2, s2)]
        allow_ro_slot_of(newp, d2, s2) == allow_ro_slot_of(oldp, d2, s2)
    &&& same_but_grants_and_return(oldp, newp)
}

/// Effect of a ReadWriteAllow call once past the filter: a buffer outside
/// the process's accessible read-write memory is refused with `INVAL` and
/// the caller's parameters; a valid buffer is either swapped in (success)
/// or refused by the allocation protocol (`NOMEM` or `NOSUPPORT`).
pub open spec fn allow_rw_syscall_effect(
    oldp: Process,
    newp: Process,
    d: usize,
    sub: usize,
    addr: usize,
    len: usize,
) -> bool {
    if !oldp.rw_buffer_valid(addr, len) {
        newp == with_return(
            oldp,
            SyscallReturn::AllowReadWriteFailure(ErrorCode::INVAL, addr, len),
        )
    } else {
        ||| allow_rw_success_effect(oldp, newp, d, sub, addr, len)
        ||| exists|e: ErrorCode|
            (e == ErrorCode::NOMEM || e == ErrorCode::NOSUPPORT) && #[trigger]
            allow_rw_failure_effect(oldp, newp, d, sub, addr, len, e)
    }
}

/// A successful read-only allow, as `allow_rw_success_effect` for the
/// read-only slots.
pub open spec fn allow_ro_success_effect(
    oldp: Process,
    newp: Process,
    d: usize,
    sub: usize,
    addr: usize,
    len: usize,
) -> bool {
    let prev = allow_ro_slot_of(oldp, d, sub);
    &&& newp.syscall_return == Some(SyscallReturn::AllowReadOnlySuccess(prev.ptr, prev.len))
    &&& allow_ro_slot_of(newp, d, sub) == (AllowSlot { ptr: addr, len })
    &&& forall|d2: usize, s2: usize|
        #![trigger allow_ro_slot_of(newp, d2, s2)]
        #![trigger allow_ro_slot_of(oldp, d2, s2)]
        !(d2 == d && s2 == sub) ==> allow_ro_slot_of(newp, d2, s2) == allow_ro_slot_of(oldp, d2, s2)
    &&& forall|d2: usize, s2: usize|
        #![trigger upcall_slot_of(newp, d2, s2)]
        #![trigger upcall_slot_of(oldp, d2, s2)]
        upcall_slot_of(newp, d2, s2) == upcall_slot_of(oldp, d2, s2)
    &&& forall|d2: usize, s2: usize|
        #![trigger allow_rw_slot_of(newp, d2, s2)]
        #![trigger allow_rw_slot_of(oldp, d2, s2)]
        allow_rw_slot_of(newp, d2, s2) == allow_rw_slot_of(oldp, d2, s2)
    &&& same_but_grants_and_return(oldp, newp)
}

/// A failed read-only allow, as `allow_rw_failure_effect` for the
/// read-only slots.
pub open spec fn allow_ro_failure_effect(
    oldp: Process,
    newp: Process,
    d: usize,
    sub: usize,
    addr: usize,
    len: usize,
    e: ErrorCode,
) -> bool {
    &&& newp.syscall_return == Some(SyscallReturn::AllowReadOnlyFailure(e, addr, len))
    &&& forall|d2: usize, s2: usize|
        #![trigger allow_ro_slot_of(newp, d2, s2)]
        #![trigger allow_ro_slot_of(oldp, d2, s2)]
        allow_ro_slot_of(newp, d2, s2) == allow_ro_slot_of(oldp, d2, s2)
    &&& forall|d2: usize, s2: usize|
        #![trigger upcall_slot_of(newp, d2, s2)]
        #![trigger upcall_slot_of(oldp, d2, s2)]
        upcall_slot_of(newp, d2, s2) == upcall_slot_of(oldp, d2, s2)
    &&& forall|d2: usize, s2: usize|
        #![trigger allow_rw_slot_of(newp, d2, s2)]
        #![trigger allow_rw_slot_of(oldp, d2, s2)]
        allow_rw_slot_of(newp, d2, s2) == allow_rw_slot_of(oldp, d2, s2)
    &&& same_but_grants_and_return(oldp, newp)
}

/// Effect of a ReadOnlyAllow call once past the filter: the buffer must
/// lie in readable memory (accessible RAM or flash), else `INVAL` with the
/// caller's parameters.
pub open spec fn allow_ro_syscall_effect(
    oldp: Process,
    newp: Process,
    d: usize,
    sub: usize,
    addr: usize,
    len: usize,
) -> bool {
    if !oldp.ro_buffer_valid(addr, len) {
        newp == with_return(oldp, SyscallReturn::AllowReadOnlyFailure(ErrorCode::INVAL, addr, len))
    } else {
        ||| allow_ro_success_effect(oldp, newp, d, sub, addr, len)
        ||| exists|e: ErrorCode|
            (e == ErrorCode::NOMEM || e == ErrorCode::NOSUPPORT) && #[trigger]
            allow_ro_failure_effect(oldp, newp, d, sub, addr, len, e)
    }
}

/// A successful subscribe: the process learns the descriptor previously
/// installed at `(d, sub)` — null on the first call — the new descriptor
/// takes its place, no other slot moves, and every queued delivery of this
/// upcall is purged so that the old function pointer can never fire again.
pub open spec fn subscribe_success_effect(
    oldp: Process,
    newp: Process,
    d: usize,
    sub: usize,
    ptr: usize,
    appdata: usize,
) -> bool {
    let prev = upcall_slot_of(oldp, d, sub);
    let id = UpcallId { driver_num: d, subscribe_num: sub };
    &&& newp.syscall_return == Some(SyscallReturn::SubscribeSuccess(prev.fn_ptr, prev.appdata))
    &&& upcall_slot_of(newp, d, sub) == (UpcallSlot { fn_ptr: ptr, appdata })
    &&& forall|d2: usize, s2: usize|
        #![trigger upcall_slot_of(newp, d2, s2)]
        #![trigger upcall_slot_of(oldp, d2, s2)]
        !(d2 == d && s2 == sub) ==> upcall_slot_of(newp, d2, s2) == upcall_slot_of(oldp, d2, s2)
    &&& forall|d2: usize, s2: usize|
        #![trigger allow_rw_slot_of(newp, d2, s2)]
        #![trigger allow_rw_slot_of(oldp, d2, s2)]
        allow_rw_slot_of(newp, d2, s2) == allow_rw_slot_of(oldp, d2, s2)
    &&& forall|d2: usize, s2: usize|
        #![trigger allow_ro_slot_of(newp, d2, s2)]
        #![trigger allow_ro_slot_of(oldp, d2, s2)]
        allow_ro_slot_of(newp, d2, s2) == allow_ro_slot_of(oldp, d2, s2)
    &&& newp.tasks@ == oldp.tasks@.filter(keeps_other_upcalls(id))
    &&& newp == (Process {
        grants: newp.grants,
        tasks: newp.tasks,
        syscall_return: newp.syscall_return,
        ..oldp
    })
}

/// A failed subscribe: the caller's own descriptor is handed back with the
/// error, no slot moves, and nothing is purged.
pub open spec fn subscribe_failure_effect(
    oldp: Process,
    newp: Process,
    d: usize,
    sub: usize,
    ptr: usize,
    appdata: usize,
    e: ErrorCode,
) -> bool {
    &&& newp.syscall_return == Some(SyscallReturn::SubscribeFailure(e, ptr, appdata))
    &&& forall|d2: usize, s2: usize|
        #![trigger upcall_slot_of(newp, d2, s2)]
        #![trigger upcall_slot_of(oldp, d2, s2)]
        upcall_slot_of(newp, d2, s2) == upcall_slot_of(oldp, d2, s2)
    &&& forall|d2: usize, s2: usize|
        #![trigger allow_rw_slot_of(newp, d2, s2)]
        #![trigger allow_rw_slot_of(oldp, d2, s2)]
        allow_rw_slot_of(newp, d2, s2) == allow_rw_slot_of(oldp, d2, s2)
    &&& forall|d2: usize, s2: usize|
        #![trigger allow_ro_slot_of(newp, d2, s2)]
        #![trigger allow_ro_slot_of(oldp, d2, s2)]
        allow_ro_slot_of(newp, d2, s2) == allow_ro_slot_of(oldp, d2, s2)
    &&& newp.tasks@ == oldp.tasks@
    &&& newp == (Process {
        grants: newp.grants,
        tasks: newp.tasks,
        syscall_return: newp.syscall_return,
        ..oldp
    })
}

/// Effect of a Subscribe call once past the filter: a non-null pointer
/// outside the process's executable memory is refused with `INVAL` and the
/// caller's descriptor; otherwise the descriptor is either swapped in
/// (success, with the pending-upcall purge) or refused by the allocation
/// protocol.
pub open spec fn subscribe_syscall_effect(
    oldp: Process,
    newp: Process,
    d: usize,
    sub: usize,
    ptr: usize,
    appdata: usize,
) -> bool {
    if ptr != 0 && !(oldp.flash_start <= ptr < oldp.flash_integrity_end()) {
        newp == with_return(
            oldp,
            SyscallReturn::SubscribeFailure(ErrorCode::INVAL, ptr, appdata),
        )
    } else {
        ||| subscribe_success_effect(oldp, newp, d, sub, ptr, appdata)
        ||| exists|e: ErrorCode|
            (e == ErrorCode::NOMEM || e == ErrorCode::NOSUPPORT) && #[trigger]
            subscribe_failure_effect(oldp, newp, d, sub, ptr, appdata, e)
    }
}

} // verus!
