//! When to give up restarting a failing audio capture.

use std::collections::VecDeque;
use vstd::prelude::*;

verus! {

/// How many capture failures are tolerated within how long, and how long to
/// wait before a restart. Times are in milliseconds.
#[derive(Clone, Copy, Debug, PartialEq, Eq, Structural)]
pub struct PolicyAudioRestart {
    pub max_restarts: usize,
    pub time_window_ms: u64,
    pub retry_delay_ms: u64,
}

impl Default for PolicyAudioRestart {
    /// Five failures within eight seconds stop the capture; restarts wait one second.
    fn default() -> (r: Self)
        ensures
            r == (PolicyAudioRestart { max_restarts: 5, time_window_ms: 8000, retry_delay_ms: 1000 }),
    {
        PolicyAudioRestart { max_restarts: 5, time_window_ms: 8000, retry_delay_ms: 1000 }
    }
}

/// The failure times of a capture under a restart policy.
pub struct RestartTracker {
    policy: PolicyAudioRestart,
    crash_timestamps: VecDeque<u64>,
}

/// The failure times after one more at `now`: the oldest is dropped first when
/// `max` are already kept.
pub open spec fn times_after(t: Seq<u64>, max: int, now: u64) -> Seq<u64> {
    let kept = if t.len() >= max && t.len() > 0 {
        t.drop_first()
    } else {
        t
    };
    kept.push(now)
}

impl RestartTracker {
    pub closed spec fn times(&self) -> Seq<u64> {
        self.crash_timestamps@
    }

    pub closed spec fn policy_view(&self) -> PolicyAudioRestart {
        self.policy
    }

    pub fn new(policy: PolicyAudioRestart) -> (r: Self)
        ensures
            r.times() == Seq::<u64>::empty(),
            r.policy_view() == policy,
    {
        RestartTracker { policy, crash_timestamps: VecDeque::new() }
    }

    pub fn policy(&self) -> (r: PolicyAudioRestart)
        ensures
            r == self.policy_view(),
    {
        self.policy
    }

    /// Records a failure at `now`; true when the last `max_restarts` failures,
    /// this one included, all fell within less than `time_window_ms`.
    pub fn should_stop_restarting(&mut self, now: u64) -> (r: bool)
        ensures
            final(self).policy_view() == old(self).policy_view(),
            final(self).times() == times_after(
                old(self).times(),
                old(self).policy_view().max_restarts as int,
                now,
            ),
            r == ({
                let t = final(self).times();
                let p = old(self).policy_view();
                t.len() == p.max_restarts && (if t.last() >= t[0] {
                    t.last() - t[0]
                } else {
                    0
                }) < p.time_window_ms
            }),
    {
        if self.crash_timestamps.len() >= self.policy.max_restarts {
            let _ = self.crash_timestamps.pop_front();
        }
        self.crash_timestamps.push_back(now);
        proof {
            let t = old(self).crash_timestamps@;
            if t.len() >= old(self).policy.max_restarts && t.len() > 0 {
                assert(t.subrange(1, t.len() as int) =~= t.drop_first());
            }
        }
        let n = self.crash_timestamps.len();
        if n == self.policy.max_restarts {
            let first = self.crash_timestamps[0];
            let last = self.crash_timestamps[n - 1];
            if last.saturating_sub(first) < self.policy.time_window_ms {
                return true;
            }
        }
        false
    }
}

} // verus!
