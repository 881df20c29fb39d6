//! Counters of what a client could not do.
use vstd::prelude::*;
use vstd::string::StringExecFns;
use crate::text::{decimal, to_decimal};

verus! {

/// What is counted.
#[derive(Clone, Copy, Debug, PartialEq, Eq, Structural)]
pub enum ClientMetric {
    BlockedRoom,
    CommitConflict,
    RecoveryFailure,
}

/// The counters.
#[derive(Clone, Copy, Debug, PartialEq, Eq, Structural)]
pub struct ClientMetrics {
    pub blocked_rooms: u64,
    pub commit_conflicts: u64,
    pub recovery_failures: u64,
}

/// One more; behind the largest number comes zero.
pub open spec fn counted(counter: u64) -> u64 {
    if counter == u64::MAX {
        0
    } else {
        (counter + 1) as u64
    }
}

/// Counts one more; behind the largest number comes zero.
pub fn increment(counter: &mut u64)
    ensures
        *final(counter) == counted(*old(counter)),
{
    *counter = counter.wrapping_add(1);
}

impl ClientMetrics {
    /// Nothing counted yet.
    pub fn new() -> (metrics: ClientMetrics)
        ensures
            metrics == (ClientMetrics {
                blocked_rooms: 0,
                commit_conflicts: 0,
                recovery_failures: 0,
            }),
    {
        ClientMetrics { blocked_rooms: 0, commit_conflicts: 0, recovery_failures: 0 }
    }

    /// The counters after one event.
    pub open spec fn after(self, metric: ClientMetric) -> ClientMetrics {
        match metric {
            ClientMetric::BlockedRoom => ClientMetrics {
                blocked_rooms: counted(self.blocked_rooms),
                ..self
            },
            ClientMetric::CommitConflict => ClientMetrics {
                commit_conflicts: counted(self.commit_conflicts),
                ..self
            },
            ClientMetric::RecoveryFailure => ClientMetrics {
                recovery_failures: counted(self.recovery_failures),
                ..self
            },
        }
    }

    /// Counts an event.
    pub fn count(&mut self, metric: ClientMetric)
        ensures
            *final(self) == old(self).after(metric),
    {
        match metric {
            ClientMetric::BlockedRoom => increment(&mut self.blocked_rooms),
            ClientMetric::CommitConflict => increment(&mut self.commit_conflicts),
            ClientMetric::RecoveryFailure => increment(&mut self.recovery_failures),
        }
    }

    /// The counters as a line of text.
    pub fn report(&self) -> (text: String)
        ensures
            text@ == "grotto_client_metrics blocked_rooms="@ + decimal(self.blocked_rooms as nat)
                + " commit_conflicts="@ + decimal(self.commit_conflicts as nat)
                + " recovery_failures="@ + decimal(self.recovery_failures as nat),
    {
        let mut text = String::from_str("grotto_client_metrics blocked_rooms=");
        text.append(to_decimal(self.blocked_rooms).as_str());
        text.append(" commit_conflicts=");
        text.append(to_decimal(self.commit_conflicts).as_str());
        text.append(" recovery_failures=");
        text.append(to_decimal(self.recovery_failures).as_str());
        text
    }
}

} // verus!
