//! The fixed priorities of the device's tasks.
//!
//! A task runs to completion unless a more urgent one arrives. Capture
//! comes first, so that no batch is lost; sending comes last, so that the
//! stream of samples cannot hold up anything else.

use vstd::prelude::*;

verus! {

/// The tasks of the device, from the most urgent to the least.
#[derive(Clone, Copy, Debug, PartialEq, Eq, Structural)]
pub enum Task {
    /// A batch is complete: swap the buffers and re-arm capture.
    CaptureComplete,
    /// The link has finished a transfer in either direction.
    LinkEvent,
    /// Compute the bearings of a batch and turn the bracket.
    Compute,
    /// Apply a command of the host.
    Command,
    /// Move the servos one step.
    ServoTick,
    /// Send a message to the host.
    Transmit,
}

/// How urgent a task is; the larger, the more urgent.
pub open spec fn urgency(task: Task) -> int {
    match task {
        Task::CaptureComplete => 6,
        Task::LinkEvent => 5,
        Task::Compute => 4,
        Task::Command => 3,
        Task::ServoTick => 2,
        Task::Transmit => 1,
    }
}

/// Whether `next` is the place in `pending` of the task to run: the most
/// urgent one, and among equally urgent ones the one that has waited
/// longest.
pub open spec fn is_most_urgent(pending: Seq<Task>, next: int) -> bool {
    &&& 0 <= next < pending.len()
    &&& forall|j: int| 0 <= j < pending.len() ==> urgency(pending[j]) <= urgency(pending[next])
    &&& forall|j: int| 0 <= j < next ==> urgency(pending[j]) < urgency(pending[next])
}

/// Nothing preempts the handling of a complete batch, and sending preempts
/// nothing.
pub proof fn lemma_capture_first_transmit_last(task: Task)
    ensures
        urgency(task) <= urgency(Task::CaptureComplete),
        urgency(Task::Transmit) <= urgency(task),
        task != Task::CaptureComplete ==> urgency(task) < urgency(Task::CaptureComplete),
        task != Task::Transmit ==> urgency(Task::Transmit) < urgency(task),
{
}

/// The priority of a task; the larger, the more urgent.
pub fn priority(task: Task) -> (level: u8)
    ensures
        level == urgency(task),
{
    match task {
        Task::CaptureComplete => 6,
        Task::LinkEvent => 5,
        Task::Compute => 4,
        Task::Command => 3,
        Task::ServoTick => 2,
        Task::Transmit => 1,
    }
}

/// Whether a task that arrives interrupts the one that is running: it does
/// if and only if it is strictly more urgent.
pub fn preempts(arriving: Task, running: Task) -> (interrupts: bool)
    ensures
        interrupts == (urgency(arriving) > urgency(running)),
{
    priority(arriving) > priority(running)
}

/// Picks the task to run among those that wait, given in the order in which
/// they arrived: `None` if none waits.
pub fn most_urgent(pending: &[Task]) -> (next: Option<usize>)
    ensures
        next is None <==> pending@.len() == 0,
        next is Some ==> is_most_urgent(pending@, next->0 as int),
{
    let len: usize = pending.len();
    if len == 0 {
        return None;
    }
    let mut best: usize = 0;
    let mut i: usize = 1;
    while i < len
        invariant
            1 <= i <= len,
            len == pending@.len(),
            best < i,
            forall|j: int| 0 <= j < i ==> urgency(pending@[j]) <= urgency(pending@[best as int]),
            forall|j: int| 0 <= j < best ==> urgency(pending@[j]) < urgency(pending@[best as int]),
        decreases len - i,
    {
        if priority(pending[i]) > priority(pending[best]) {
            best = i;
        }
        i = i + 1;
    }
    Some(best)
}

} // verus!
