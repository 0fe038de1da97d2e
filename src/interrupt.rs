//! The interrupt slot of a locally run command. Where the platform has
//! process groups, the slot holds the group of the running child; elsewhere it
//! holds only whether something runs. The caller keeps the runtime behind a
//! lock, so that each operation below is one critical section.
use vstd::prelude::*;

verus! {

/// What the runtime knows of the command it runs.
#[derive(PartialEq, Eq, Structural, Debug, Clone, Copy)]
pub enum ProcessHandle {
    /// The process group of the running child, on platforms that have them.
    Group { pgid: Option<i32> },
    /// Whether a command runs, on platforms without process groups.
    Flag { running: bool },
}

/// Tracks at most one running command, and hands out at most one interrupt for it.
pub struct LocalExecRuntime {
    pub handle: ProcessHandle,
}

/// The group to signal for a child `pid` whose group lookup gave `looked_up`:
/// the group when the lookup succeeded, else the child itself. Nothing when
/// neither is a positive process identifier.
pub open spec fn group_target(pid: u32, looked_up: i32) -> Option<i32> {
    if looked_up > 0 {
        Some(looked_up)
    } else if 0 < pid && pid <= i32::MAX {
        Some(pid as i32)
    } else {
        None
    }
}

/// The handle after an interrupt request: the slot taken and cleared.
pub open spec fn after_interrupt(h: ProcessHandle) -> ProcessHandle {
    match h {
        ProcessHandle::Group { .. } => ProcessHandle::Group { pgid: None },
        ProcessHandle::Flag { .. } => ProcessHandle::Flag { running: false },
    }
}

/// The target that an interrupt request signals: the negated group, which
/// addresses every process in it.
pub open spec fn interrupt_target(h: ProcessHandle) -> Option<i32> {
    match h {
        ProcessHandle::Group { pgid: Some(g) } => Some((-g) as i32),
        _ => None,
    }
}

impl LocalExecRuntime {
    /// Every recorded group is a positive identifier.
    pub open spec fn wf(&self) -> bool {
        match self.handle {
            ProcessHandle::Group { pgid: Some(g) } => g > 0,
            _ => true,
        }
    }

    /// Whether the invariant holds.
    pub fn well_formed(&self) -> (r: bool)
        ensures
            r == self.wf(),
    {
        match self.handle {
            ProcessHandle::Group { pgid: Some(g) } => g > 0,
            _ => true,
        }
    }

    /// A runtime with nothing recorded, of the group-capable kind or not.
    pub fn new(group_capable: bool) -> (r: LocalExecRuntime)
        ensures
            r.wf(),
            group_capable ==> r.handle == (ProcessHandle::Group { pgid: None }),
            !group_capable ==> r.handle == (ProcessHandle::Flag { running: false }),
    {
        if group_capable {
            LocalExecRuntime { handle: ProcessHandle::Group { pgid: None } }
        } else {
            LocalExecRuntime { handle: ProcessHandle::Flag { running: false } }
        }
    }
}

/// The group to signal for child `pid`, given what its group lookup returned.
pub fn choose_group(pid: u32, looked_up: i32) -> (r: Option<i32>)
    ensures
        r == group_target(pid, looked_up),
{
    if looked_up > 0 {
        Some(looked_up)
    } else if 0 < pid && pid <= 0x7fff_ffff {
        Some(pid as i32)
    } else {
        None
    }
}

/// Records a spawned child, replacing whatever was recorded before. `looked_up`
/// is what the group lookup for the child returned.
pub fn record_child(runtime: &mut LocalExecRuntime, pid_opt: Option<u32>, looked_up: i32)
    requires
        old(runtime).wf(),
    ensures
        final(runtime).wf(),
        (match (old(runtime).handle, pid_opt) {
            (ProcessHandle::Group { .. }, Some(pid)) => final(runtime).handle
                == (ProcessHandle::Group { pgid: group_target(pid, looked_up) }),
            (ProcessHandle::Group { .. }, None) => final(runtime).handle == old(runtime).handle,
            (ProcessHandle::Flag { .. }, _) => final(runtime).handle == (ProcessHandle::Flag {
                running: true,
            }),
        }),
{
    match runtime.handle {
        ProcessHandle::Group { .. } => {
            if let Some(pid) = pid_opt {
                let g = choose_group(pid, looked_up);
                runtime.handle = ProcessHandle::Group { pgid: g };
            }
        },
        ProcessHandle::Flag { .. } => {
            runtime.handle = ProcessHandle::Flag { running: true };
        },
    }
}

/// Forgets the recorded child, after it exits or when spawning it failed.
pub fn clear(runtime: &mut LocalExecRuntime)
    ensures
        final(runtime).wf(),
        final(runtime).handle == after_interrupt(old(runtime).handle),
{
    match runtime.handle {
        ProcessHandle::Group { .. } => {
            runtime.handle = ProcessHandle::Group { pgid: None };
        },
        ProcessHandle::Flag { .. } => {
            runtime.handle = ProcessHandle::Flag { running: false };
        },
    }
}

/// Takes the recorded child and clears the slot in one step; returns the
/// target to deliver the interrupt signal to, if a group was recorded.
pub fn interrupt(runtime: &mut LocalExecRuntime) -> (r: Option<i32>)
    requires
        old(runtime).wf(),
    ensures
        final(runtime).wf(),
        final(runtime).handle == after_interrupt(old(runtime).handle),
        r == interrupt_target(old(runtime).handle),
        (r matches Some(t) ==> t < 0),
{
    match runtime.handle {
        ProcessHandle::Group { pgid } => {
            runtime.handle = ProcessHandle::Group { pgid: None };
            match pgid {
                Some(g) => Some(-g),
                None => None,
            }
        },
        ProcessHandle::Flag { .. } => {
            runtime.handle = ProcessHandle::Flag { running: false };
            None
        },
    }
}

/// Two interrupt requests with no spawn between them deliver at most one
/// signal: the second finds the slot already cleared.
pub proof fn lemma_interrupt_idempotent(h: ProcessHandle)
    ensures
        interrupt_target(after_interrupt(h)) is None,
        after_interrupt(after_interrupt(h)) == after_interrupt(h),
{
}

} // verus!
