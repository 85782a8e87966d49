//! The reference scheduling policy: cooperative-preemptive round robin.
//!
//! Each runnable process receives the same timeslice in turn; kernel work
//! (interrupt bottom halves and deferred calls) always takes priority, and
//! the chip is put to sleep exactly when the kernel's work counter reports
//! nothing outstanding.

use vstd::prelude::*;

use crate::kernel::Kernel;
use crate::kernel::StoppedExecutingReason;
use crate::kernel::spec_processid_valid;
use crate::platform::Scheduler;
use crate::platform::SchedulingDecision;
use crate::process::Process;
use crate::process::ProcessId;

verus! {

/// Whether slot `j` of the table holds a process the dispatcher has work
/// for.
pub open spec fn slot_ready(s: Seq<Option<Process>>, j: int) -> bool {
    s[j] is Some && (s[j]->0).spec_ready()
}

/// The table index the round-robin scan visits at step `t` when it
/// started at `start`.
pub open spec fn wrap_index(start: int, t: int, count: int) -> int {
    if start + t < count {
        start + t
    } else {
        start + t - count
    }
}

/// Round-robin scheduler with a fixed timeslice.
pub struct RoundRobinScheduler {
    /// Slot index at which the next search for a runnable process starts.
    next_index: usize,
    /// Timeslice granted to each process, in microseconds.
    timeslice_us: u32,
}

impl RoundRobinScheduler {
    /// The timeslice granted to each process.
    pub closed spec fn spec_timeslice_us(self) -> u32 {
        self.timeslice_us
    }

    /// A fresh round-robin scheduler granting each process `timeslice_us`
    /// microseconds per turn.
    pub fn new(timeslice_us: u32) -> (s: RoundRobinScheduler)
        ensures
            s.spec_timeslice_us() == timeslice_us,
    {
        RoundRobinScheduler { next_index: 0, timeslice_us }
    }

    /// Choose what the kernel should do next. When the kernel's work
    /// counter reports nothing outstanding, the decision is always to try
    /// to sleep; otherwise the next ready process in round-robin order is
    /// chosen with the fixed timeslice, and sleep is proposed only when no
    /// process is ready.
    pub fn next_decision(&mut self, kernel: &Kernel) -> (d: SchedulingDecision)
        ensures
            kernel.spec_work() == 0 ==> d is TrySleep,
            d is TrySleep ==> kernel.spec_work() == 0 || (forall|j: int|
                0 <= j < kernel.spec_process_count() ==> !(#[trigger] slot_ready(
                    kernel.spec_processes(),
                    j,
                ))),
            match d {
                SchedulingDecision::RunProcess(pid, ts) => ts == Some(
                    old(self).spec_timeslice_us(),
                ) && (kernel.wf() ==> spec_processid_valid(kernel.spec_processes(), pid) && (
                kernel.spec_processes()[pid.index as int]->0).spec_ready()),
                SchedulingDecision::TrySleep => true,
            },
            final(self).spec_timeslice_us() == old(self).spec_timeslice_us(),
    {
        if kernel.processes_blocked() {
            // Nothing outstanding anywhere: the chip may sleep.
            return SchedulingDecision::TrySleep;
        }
        let count = kernel.process_count();
        if count == 0 {
            return SchedulingDecision::TrySleep;
        }
        if self.next_index >= count {
            self.next_index = 0;
        }
        let start = self.next_index;
        let mut idx = self.next_index;
        let mut offset: usize = 0;
        while offset < count
            invariant
                count == kernel.spec_process_count(),
                count > 0,
                start < count,
                idx < count,
                offset <= count,
                idx as int == wrap_index(start as int, offset as int, count as int),
                kernel.spec_work() != 0,
                self.timeslice_us == old(self).timeslice_us,
                forall|t: int|
                    0 <= t < offset ==> !slot_ready(
                        kernel.spec_processes(),
                        #[trigger] wrap_index(start as int, t, count as int),
                    ),
            decreases count - offset,
        {
            match kernel.process_ref(idx) {
                Some(p) => {
                    if p.ready() {
                        // Found the next runnable process; resume the
                        // search after it next time.
                        self.next_index = if idx + 1 >= count {
                            0
                        } else {
                            idx + 1
                        };
                        return SchedulingDecision::RunProcess(
                            p.processid(),
                            Some(self.timeslice_us),
                        );
                    }
                },
                None => {},
            }
            idx = if idx + 1 >= count {
                0
            } else {
                idx + 1
            };
            offset = offset + 1;
        }
        proof {
            // The scan wrapped over the whole table: every slot was
            // visited and none was ready.
            assert forall|j: int|
                0 <= j < kernel.spec_process_count() implies !(#[trigger] slot_ready(
                kernel.spec_processes(),
                j,
            )) by {
                let t = if j >= start {
                    j - start
                } else {
                    j + count - start
                };
                assert(wrap_index(start as int, t, count as int) == j);
                assert(!slot_ready(
                    kernel.spec_processes(),
                    wrap_index(start as int, t, count as int),
                ));
            }
        }
        SchedulingDecision::TrySleep
    }
}

impl Scheduler for RoundRobinScheduler {
    fn next(&mut self, kernel: &Kernel) -> SchedulingDecision {
        self.next_decision(kernel)
    }

    fn result(&mut self, _reason: StoppedExecutingReason, _time_executed_us: Option<u32>) {
    }

    fn do_kernel_work_now(&mut self, pending_interrupts: bool, pending_deferred_calls: bool) -> bool {
        pending_interrupts || pending_deferred_calls
    }

    fn continue_process(
        &mut self,
        _processid: ProcessId,
        pending_interrupts: bool,
        pending_deferred_calls: bool,
    ) -> bool {
        !(pending_interrupts || pending_deferred_calls)
    }
}

} // verus!
