//! Request counters and latency aggregates of the privacy endpoints.

use vstd::prelude::*;

verus! {

/// Which privacy endpoint a counter belongs to.
#[derive(Debug, Clone, Copy, PartialEq, Eq, Structural)]
pub enum RequestKind {
    Clean,
    Restore,
}

/// Counters since the process started. Every counter wraps around at
/// `u64::MAX`, as an atomic `fetch_add` does.
#[derive(Debug, Clone, Copy, PartialEq, Eq, Structural)]
pub struct Metrics {
    pub clean_requests: u64,
    pub clean_errors: u64,
    pub restore_requests: u64,
    pub restore_errors: u64,
    pub clean_latency_ms_sum: u64,
    pub clean_latency_ms_max: u64,
    pub restore_latency_ms_sum: u64,
    pub restore_latency_ms_max: u64,
    pub policy_apply_conflicts: u64,
}

/// A copy of every counter at one moment.
#[derive(Debug, Clone, Copy, PartialEq, Eq, Structural)]
pub struct MetricsSnapshot {
    pub clean_requests: u64,
    pub clean_errors: u64,
    pub restore_requests: u64,
    pub restore_errors: u64,
    pub clean_latency_ms_sum: u64,
    pub clean_latency_ms_max: u64,
    pub restore_latency_ms_sum: u64,
    pub restore_latency_ms_max: u64,
    pub policy_apply_conflicts: u64,
}

/// `a + b` wrapped into `u64`.
pub open spec fn wrap_add(a: u64, b: u64) -> u64 {
    if a + b <= u64::MAX {
        (a + b) as u64
    } else {
        (a + b - u64::MAX - 1) as u64
    }
}

pub open spec fn max_u64(a: u64, b: u64) -> u64 {
    if a >= b {
        a
    } else {
        b
    }
}

fn bump(counter: &mut u64, by: u64)
    ensures
        *final(counter) == wrap_add(*old(counter), by),
{
    if *counter <= u64::MAX - by {
        *counter = *counter + by;
    } else {
        *counter = by - (u64::MAX - *counter) - 1;
    }
}

/// Adds `ms` to a latency sum and raises the maximum to `ms` if it is larger.
pub fn observe_latency(sum: &mut u64, max: &mut u64, ms: u64)
    ensures
        *final(sum) == wrap_add(*old(sum), ms),
        *final(max) == max_u64(*old(max), ms),
{
    bump(sum, ms);
    if ms > *max {
        *max = ms;
    }
}

impl Default for Metrics {
    fn default() -> (m: Self)
        ensures
            m == Metrics::zero(),
    {
        Metrics::new()
    }
}

impl Metrics {
    pub open spec fn zero() -> Metrics {
        Metrics {
            clean_requests: 0,
            clean_errors: 0,
            restore_requests: 0,
            restore_errors: 0,
            clean_latency_ms_sum: 0,
            clean_latency_ms_max: 0,
            restore_latency_ms_sum: 0,
            restore_latency_ms_max: 0,
            policy_apply_conflicts: 0,
        }
    }

    /// Every counter at zero.
    pub fn new() -> (m: Self)
        ensures
            m == Metrics::zero(),
    {
        Metrics {
            clean_requests: 0,
            clean_errors: 0,
            restore_requests: 0,
            restore_errors: 0,
            clean_latency_ms_sum: 0,
            clean_latency_ms_max: 0,
            restore_latency_ms_sum: 0,
            restore_latency_ms_max: 0,
            policy_apply_conflicts: 0,
        }
    }

    pub fn snapshot(&self) -> (s: MetricsSnapshot)
        ensures
            s.clean_requests == self.clean_requests,
            s.clean_errors == self.clean_errors,
            s.restore_requests == self.restore_requests,
            s.restore_errors == self.restore_errors,
            s.clean_latency_ms_sum == self.clean_latency_ms_sum,
            s.clean_latency_ms_max == self.clean_latency_ms_max,
            s.restore_latency_ms_sum == self.restore_latency_ms_sum,
            s.restore_latency_ms_max == self.restore_latency_ms_max,
            s.policy_apply_conflicts == self.policy_apply_conflicts,
    {
        MetricsSnapshot {
            clean_requests: self.clean_requests,
            clean_errors: self.clean_errors,
            restore_requests: self.restore_requests,
            restore_errors: self.restore_errors,
            clean_latency_ms_sum: self.clean_latency_ms_sum,
            clean_latency_ms_max: self.clean_latency_ms_max,
            restore_latency_ms_sum: self.restore_latency_ms_sum,
            restore_latency_ms_max: self.restore_latency_ms_max,
            policy_apply_conflicts: self.policy_apply_conflicts,
        }
    }

    /// Counts a policy apply refused for a stale hash.
    pub fn record_policy_conflict(&mut self)
        ensures
            *final(self) == (Metrics {
                policy_apply_conflicts: wrap_add(old(self).policy_apply_conflicts, 1),
                ..*old(self)
            }),
    {
        bump(&mut self.policy_apply_conflicts, 1);
    }

    /// Counts a request as it arrives.
    pub fn record_request(&mut self, kind: RequestKind)
        ensures
            kind == RequestKind::Clean ==> *final(self) == (Metrics {
                clean_requests: wrap_add(old(self).clean_requests, 1),
                ..*old(self)
            }),
            kind == RequestKind::Restore ==> *final(self) == (Metrics {
                restore_requests: wrap_add(old(self).restore_requests, 1),
                ..*old(self)
            }),
    {
        match kind {
            RequestKind::Clean => bump(&mut self.clean_requests, 1),
            RequestKind::Restore => bump(&mut self.restore_requests, 1),
        }
    }

    /// Records how a request ended: its latency in milliseconds when it
    /// succeeded, or one more error when it failed.
    pub fn record_outcome(&mut self, kind: RequestKind, latency_ms: Option<u64>)
        ensures
            kind == RequestKind::Clean && latency_ms is Some ==> *final(self) == (Metrics {
                clean_latency_ms_sum: wrap_add(old(self).clean_latency_ms_sum, latency_ms->0),
                clean_latency_ms_max: max_u64(old(self).clean_latency_ms_max, latency_ms->0),
                ..*old(self)
            }),
            kind == RequestKind::Clean && latency_ms is None ==> *final(self) == (Metrics {
                clean_errors: wrap_add(old(self).clean_errors, 1),
                ..*old(self)
            }),
            kind == RequestKind::Restore && latency_ms is Some ==> *final(self) == (Metrics {
                restore_latency_ms_sum: wrap_add(old(self).restore_latency_ms_sum, latency_ms->0),
                restore_latency_ms_max: max_u64(old(self).restore_latency_ms_max, latency_ms->0),
                ..*old(self)
            }),
            kind == RequestKind::Restore && latency_ms is None ==> *final(self) == (Metrics {
                restore_errors: wrap_add(old(self).restore_errors, 1),
                ..*old(self)
            }),
    {
        match (kind, latency_ms) {
            (RequestKind::Clean, Some(ms)) => {
                observe_latency(&mut self.clean_latency_ms_sum, &mut self.clean_latency_ms_max, ms)
            },
            (RequestKind::Clean, None) => bump(&mut self.clean_errors, 1),
            (RequestKind::Restore, Some(ms)) => {
                observe_latency(
                    &mut self.restore_latency_ms_sum,
                    &mut self.restore_latency_ms_max,
                    ms,
                )
            },
            (RequestKind::Restore, None) => bump(&mut self.restore_errors, 1),
        }
    }
}

} // verus!
