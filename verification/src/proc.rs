use crate::context::Context;
use crate::sched::{Scheduler, SchedulerHead};
use vstd::prelude::*;

verus! {

/// A process-level schedulable unit: a process-unique id, the saved
/// execution state, and the intrusive ready-queue link.
pub struct Process {
    pub id: i32,
    pub context: Context,
    pub sched: SchedulerHead,
}

impl Process {
    /// Create a kernel process that will start executing at `entry`.
    ///
    /// The id is handed in by the scheduler, which owns the monotonic
    /// process-id counter; the new process is not enqueued (both queue links
    /// are empty).  `arg` is accepted but not yet delivered to the entry
    /// function.
    pub fn kspawn(pid: i32, entry: u64, _arg: usize, _name: &str) -> (p: Process)
        ensures
            p.id == pid,
            p.sched.prev is None,
            p.sched.next is None,
            p.context.wf(),
            p.context.initial_frame_built(entry),
    {
        Process { id: pid, context: Context::new(entry), sched: SchedulerHead::empty() }
    }

    /// The process owning the CPU's currently executing context.
    pub fn current(sched: &Scheduler) -> (p: &Process)
        requires
            sched.wf(),
        ensures
            *p == sched.tasks@[sched.current as int],
    {
        &sched.tasks[sched.current]
    }
}

} // verus!
