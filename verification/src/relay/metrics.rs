//! Counters of what went wrong.
use vstd::prelude::*;
use vstd::string::StringExecFns;
use crate::text::{decimal, to_decimal};

verus! {

/// What is counted.
#[derive(Clone, Copy, Debug, PartialEq, Eq, Structural)]
pub enum Metric {
    QueuePressure,
    Timeout,
    QuotaRejection,
    CommitConflict,
    RecoveryFailure,
}

/// The counters.
#[derive(Clone, Copy, Debug, PartialEq, Eq, Structural)]
pub struct Metrics {
    pub queue_pressure: u64,
    pub timeouts: u64,
    pub quota_rejections: u64,
    pub commit_conflicts: u64,
    pub recovery_failures: u64,
}

/// Counts one more; behind the largest number comes zero.
pub fn increment(counter: &mut u64)
    ensures
        *final(counter) == counted(*old(counter)),
{
    *counter = counter.wrapping_add(1);
}

/// One more; behind the largest number comes zero.
pub open spec fn counted(counter: u64) -> u64 {
    if counter == u64::MAX {
        0
    } else {
        (counter + 1) as u64
    }
}

impl Metrics {
    /// Nothing counted yet.
    pub fn new() -> (metrics: Metrics)
        ensures
            metrics == (Metrics {
                queue_pressure: 0,
                timeouts: 0,
                quota_rejections: 0,
                commit_conflicts: 0,
                recovery_failures: 0,
            }),
    {
        Metrics {
            queue_pressure: 0,
            timeouts: 0,
            quota_rejections: 0,
            commit_conflicts: 0,
            recovery_failures: 0,
        }
    }

    /// The counters after one event.
    pub open spec fn after(self, metric: Metric) -> Metrics {
        match metric {
            Metric::QueuePressure => Metrics {
                queue_pressure: counted(self.queue_pressure),
                ..self
            },
            Metric::Timeout => Metrics { timeouts: counted(self.timeouts), ..self },
            Metric::QuotaRejection => Metrics {
                quota_rejections: counted(self.quota_rejections),
                ..self
            },
            Metric::CommitConflict => Metrics {
                commit_conflicts: counted(self.commit_conflicts),
                ..self
            },
            Metric::RecoveryFailure => Metrics {
                recovery_failures: counted(self.recovery_failures),
                ..self
            },
        }
    }

    /// Counts an event.
    pub fn count(&mut self, metric: Metric)
        ensures
            *final(self) == old(self).after(metric),
    {
        match metric {
            Metric::QueuePressure => increment(&mut self.queue_pressure),
            Metric::Timeout => increment(&mut self.timeouts),
            Metric::QuotaRejection => increment(&mut self.quota_rejections),
            Metric::CommitConflict => increment(&mut self.commit_conflicts),
            Metric::RecoveryFailure => increment(&mut self.recovery_failures),
        }
    }

    /// The counters as a line of text.
    pub fn report(&self) -> (text: String)
        ensures
            text@ == "grotto_metrics queue_pressure="@ + decimal(self.queue_pressure as nat)
                + " timeouts="@ + decimal(self.timeouts as nat) + " quota_rejections="@ + decimal(
                self.quota_rejections as nat,
            ) + " commit_conflicts="@ + decimal(self.commit_conflicts as nat)
                + " recovery_failures="@ + decimal(self.recovery_failures as nat),
    {
        let mut text = String::from_str("grotto_metrics queue_pressure=");
        text.append(to_decimal(self.queue_pressure).as_str());
        text.append(" timeouts=");
        text.append(to_decimal(self.timeouts).as_str());
        text.append(" quota_rejections=");
        text.append(to_decimal(self.quota_rejections).as_str());
        text.append(" commit_conflicts=");
        text.append(to_decimal(self.commit_conflicts).as_str());
        text.append(" recovery_failures=");
        text.append(to_decimal(self.recovery_failures).as_str());
        text
    }
}

} // verus!
