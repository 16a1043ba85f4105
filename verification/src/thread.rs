//! Threads of the debuggee.

use vstd::prelude::*;

verus! {

/// Why the stat record of a task could not be read.
#[derive(Clone, Copy, Debug, PartialEq, Eq, Structural)]
pub enum StatFailure {
    PermissionDenied,
    /// The task is gone.
    NotFound,
    /// The record was cut short: the task was going away or coming up.
    Incomplete,
    Io,
    Other,
    InternalError,
}

/// One thread of a snapshot of the debuggee's threads.
#[derive(Clone, Copy, Debug, PartialEq, Eq, Structural)]
pub struct LinuxThread {
    tid: i32,
}

impl LinuxThread {
    /// The kernel's id of the task.
    pub closed spec fn spec_thread_id(&self) -> i32 {
        self.tid
    }

    /// The thread with the given task id.
    pub fn new(tid: i32) -> (r: LinuxThread)
        ensures
            r.spec_thread_id() == tid,
    {
        LinuxThread { tid }
    }

    /// The kernel's id of the task.
    pub fn thread_id(&self) -> (r: i32)
        ensures
            r == self.spec_thread_id(),
    {
        self.tid
    }

    /// The name of the thread, from what reading its stat record gave: the
    /// record's `comm` field, or the failure. A thread that is gone, or whose
    /// record is incomplete, has no name, and that is no error. Every other
    /// failure is handed on as it is.
    pub fn name(&self, stat: Result<String, StatFailure>) -> (r: Result<Option<String>, StatFailure>)
        ensures
            r == match stat {
                Ok(comm) => Ok::<Option<String>, StatFailure>(Some(comm)),
                Err(StatFailure::NotFound) => Ok(None),
                Err(StatFailure::Incomplete) => Ok(None),
                Err(failure) => Err(failure),
            },
    {
        match stat {
            Ok(comm) => Ok(Some(comm)),
            Err(StatFailure::NotFound) => Ok(None),
            Err(StatFailure::Incomplete) => Ok(None),
            Err(failure) => Err(failure),
        }
    }
}

} // verus!
