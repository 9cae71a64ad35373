//! Process handles and signals: the values the registry routes between.

use vstd::prelude::*;

verus! {

/// One schedulable unit of execution as the registry addresses it: a closed
/// set of kinds — locally executing, or a proxied reference to a process on
/// a remote node — behind the one capability of accepting a signal.
#[derive(Clone, Copy, PartialEq, Eq, Structural, Debug)]
pub enum ProcessHandle {
    Local { process_id: u64 },
    Remote { node_id: u64, process_id: u64 },
}

impl ProcessHandle {
    /// The process id this handle stands for, whatever its kind.
    pub fn process_id(&self) -> (r: u64)
        ensures
            r == match *self {
                ProcessHandle::Local { process_id } => process_id,
                ProcessHandle::Remote { process_id, .. } => process_id,
            },
    {
        match self {
            ProcessHandle::Local { process_id } => *process_id,
            ProcessHandle::Remote { process_id, .. } => *process_id,
        }
    }
}

/// A message addressed to a process id. The payload is opaque to routing:
/// the registry forwards it without inspecting it.
#[derive(Clone, Copy, PartialEq, Eq, Structural, Debug)]
pub struct Signal {
    pub payload: u64,
}

/// A delivery the surrounding runtime must perform: hand `signal` to the
/// mailbox behind `handle`. Produced by signal routing; enqueueing is the
/// mailbox implementation's business, outside this library.
#[derive(Clone, Copy, PartialEq, Eq, Structural, Debug)]
pub struct Delivery {
    pub handle: ProcessHandle,
    pub signal: Signal,
}

} // verus!
