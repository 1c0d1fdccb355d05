use vstd::prelude::*;

verus! {

/// The operational state that the remote engine reports for a pod.
#[derive(Clone, Copy, Debug, PartialEq, Eq, Hash, Structural)]
pub enum PodStatus {
    Created,
    Dead,
    Degraded,
    Error,
    Exited,
    Paused,
    Restarting,
    Running,
    Stopped,
    Stopping,
    Unknown,
}

/// The four aggregate counters that observers can watch.
#[derive(Clone, Copy, Debug, PartialEq, Eq, Hash, Structural)]
pub enum Counter {
    Degraded,
    NotRunning,
    Paused,
    Running,
}

impl PodStatus {
    /// The counter that a pod in this state is counted under.
    pub open spec fn counter(self) -> Counter {
        match self {
            PodStatus::Degraded => Counter::Degraded,
            PodStatus::Paused => Counter::Paused,
            PodStatus::Running => Counter::Running,
            _ => Counter::NotRunning,
        }
    }

    /// Computes [`PodStatus::counter`].
    pub fn counted_as(self) -> (c: Counter)
        ensures
            c == self.counter(),
    {
        match self {
            PodStatus::Degraded => Counter::Degraded,
            PodStatus::Paused => Counter::Paused,
            PodStatus::Running => Counter::Running,
            _ => Counter::NotRunning,
        }
    }
}

} // verus!
