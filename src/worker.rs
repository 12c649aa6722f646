//! What a scan worker does after each connection attempt: report the port
//! when it accepted, then move on to the next port of its class or stop.
use vstd::prelude::*;
use crate::partition::{ScanTask, MAX_PORT};

verus! {

/// What one connection attempt showed. Refused, unreachable and timed-out
/// attempts are all `Closed`.
#[derive(Clone, Copy, Debug, PartialEq, Eq, Structural)]
pub enum ProbeOutcome {
    Open,
    Closed,
}

/// A worker's decision after one probe.
#[derive(Clone, Copy, Debug, PartialEq, Eq, Structural)]
pub struct WorkerStep {
    /// The port to send to the collector, if any.
    pub report: Option<u16>,
    /// The port to probe next, or `None` when the task is done.
    pub next: Option<u16>,
}

/// The worker's decision after probing `port` of `task` with result `outcome`:
/// an open port is reported, a closed one is dropped silently; either way the
/// worker goes on to the next port of its class, if one is left.
pub fn advance(task: &ScanTask, port: u16, outcome: ProbeOutcome) -> (s: WorkerStep)
    requires
        task.wf(),
        task.covers(port as int),
    ensures
        s.report == (match outcome {
            ProbeOutcome::Open => Some(port),
            ProbeOutcome::Closed => None::<u16>,
        }),
        match s.next {
            Some(q) => q == port + task.stride && task.covers(q as int) && forall|x: int|
                port < x < q ==> !#[trigger] task.covers(x),
            None => port + task.stride > MAX_PORT && forall|x: int|
                port < x ==> !#[trigger] task.covers(x),
        },
{
    let report = match outcome {
        ProbeOutcome::Open => Some(port),
        ProbeOutcome::Closed => None,
    };
    WorkerStep { report, next: task.next_after(port) }
}

} // verus!
