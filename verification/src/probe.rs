//! The adaptive-timeout probe: per-server measurement collection with a
//! timeout that shrinks after sustained timeout failures.
//!
//! A probe issues a fixed number of sequential lookups against one server.
//! The lookup itself is outside work; the probe records each outcome and
//! decides the timeout for the next request. After 8 consecutive
//! timeout-classified failures the in-flight timeout is clamped to at most
//! 500 ms, after 16 it drops to 100 ms, and any success resets it to the
//! configured base. Non-timeout failures change nothing.

use vstd::prelude::*;

use crate::result::TimingResult;

verus! {

/// Consecutive timeout failures after which the timeout is reduced.
pub const REDUCE_TIMEOUT_AFTER_FAILURES: u32 = 8;

/// The reduced timeout ceiling in milliseconds.
pub const REDUCED_TIMEOUT_MS: u64 = 500;

/// Consecutive timeout failures after which the timeout is minimized.
pub const MINIMIZE_TIMEOUT_AFTER_FAILURES: u32 = 16;

/// The minimal timeout in milliseconds.
pub const MINIMAL_TIMEOUT_MS: u64 = 100;

/// One step of the adaptive-timeout machine: from the current timeout and
/// failure streak, the next (timeout, streak) after one measurement.
pub open spec fn probe_step(
    base: int,
    adaptive: bool,
    cur: int,
    streak: int,
    m: TimingResult,
) -> (int, int) {
    if m is Success {
        ((if adaptive {
            base
        } else {
            cur
        }), 0)
    } else if adaptive && m.spec_is_timeout() {
        let s2 = streak + 1;
        let t2 = if s2 >= MINIMIZE_TIMEOUT_AFTER_FAILURES {
            MINIMAL_TIMEOUT_MS as int
        } else if s2 >= REDUCE_TIMEOUT_AFTER_FAILURES {
            if cur <= REDUCED_TIMEOUT_MS {
                cur
            } else {
                REDUCED_TIMEOUT_MS as int
            }
        } else {
            cur
        };
        (t2, s2)
    } else {
        (cur, streak)
    }
}

/// The (timeout, streak) state after a whole sequence of measurements.
pub open spec fn probe_run(
    base: int,
    adaptive: bool,
    cur: int,
    streak: int,
    ms: Seq<TimingResult>,
) -> (int, int)
    decreases ms.len(),
{
    if ms.len() == 0 {
        (cur, streak)
    } else {
        let prev = probe_run(base, adaptive, cur, streak, ms.drop_last());
        probe_step(base, adaptive, prev.0, prev.1, ms.last())
    }
}

/// Under consecutive timeout failures the streak grows by one per
/// measurement, and the timeout is clamped once the streak reaches the
/// reduction thresholds.
proof fn lemma_run_all_timeouts(base: int, cur: int, streak: int, ms: Seq<TimingResult>)
    requires
        0 <= streak,
        forall|k: int| 0 <= k < ms.len() ==> (#[trigger] ms[k]).spec_is_timeout(),
    ensures
        probe_run(base, true, cur, streak, ms).1 == streak + ms.len(),
        ms.len() >= 1 && streak + ms.len() >= MINIMIZE_TIMEOUT_AFTER_FAILURES ==> probe_run(
            base,
            true,
            cur,
            streak,
            ms,
        ).0 == MINIMAL_TIMEOUT_MS,
        ms.len() >= 1 && streak + ms.len() >= REDUCE_TIMEOUT_AFTER_FAILURES ==> probe_run(
            base,
            true,
            cur,
            streak,
            ms,
        ).0 <= REDUCED_TIMEOUT_MS,
    decreases ms.len(),
{
    if ms.len() > 0 {
        let pre = ms.drop_last();
        assert(forall|k: int| 0 <= k < pre.len() ==> (#[trigger] pre[k]).spec_is_timeout());
        lemma_run_all_timeouts(base, cur, streak, pre);
        assert(ms.last().spec_is_timeout());
        assert(!(ms.last() is Success));
    }
}

/// ADAPTIVE LAW: starting from the base timeout with a fresh streak, eight
/// consecutive timeout-classified failures bring the next request's timeout
/// down to at most 500 ms, and sixteen bring it to exactly 100 ms.
pub proof fn lemma_adaptive_timeout_clamps(base: int, ms: Seq<TimingResult>)
    requires
        forall|k: int| 0 <= k < ms.len() ==> (#[trigger] ms[k]).spec_is_timeout(),
    ensures
        ms.len() >= REDUCE_TIMEOUT_AFTER_FAILURES ==> probe_run(base, true, base, 0, ms).0
            <= REDUCED_TIMEOUT_MS,
        ms.len() >= MINIMIZE_TIMEOUT_AFTER_FAILURES ==> probe_run(base, true, base, 0, ms).0
            == MINIMAL_TIMEOUT_MS,
{
    lemma_run_all_timeouts(base, base, 0, ms);
}

/// ADAPTIVE LAW: with adaptive behavior enabled, one success after any
/// failure streak resets the timeout to the base and the streak to zero.
pub proof fn lemma_adaptive_reset(base: int, cur: int, streak: int, m: TimingResult)
    requires
        m is Success,
    ensures
        probe_step(base, true, cur, streak, m) == (base, 0int),
{
}

/// The per-server probe state: adaptive-timeout machine plus the
/// measurements recorded so far.
pub struct Probe {
    /// The configured base timeout in milliseconds.
    pub base_timeout_ms: u64,
    /// Whether adaptive timeout behavior is enabled.
    pub adaptive: bool,
    /// The timeout for the next request, in milliseconds.
    pub current_timeout_ms: u64,
    /// Consecutive timeout-classified failures so far.
    pub consecutive_timeout_failures: u32,
    /// Measurements recorded so far, in issuance order.
    pub measurements: Vec<TimingResult>,
}

impl Probe {
    /// A fresh probe: timeout at the base, no failures, no measurements.
    pub fn new(base_timeout_ms: u64, adaptive: bool) -> (r: Self)
        ensures
            r.base_timeout_ms == base_timeout_ms,
            r.adaptive == adaptive,
            r.current_timeout_ms == base_timeout_ms,
            r.consecutive_timeout_failures == 0,
            r.measurements@ == Seq::<TimingResult>::empty(),
    {
        Probe {
            base_timeout_ms,
            adaptive,
            current_timeout_ms: base_timeout_ms,
            consecutive_timeout_failures: 0,
            measurements: Vec::new(),
        }
    }

    /// The timeout to use for the next request, in milliseconds.
    pub fn current_timeout(&self) -> (r: u64)
        ensures
            r == self.current_timeout_ms,
    {
        self.current_timeout_ms
    }

    /// Record one measurement and advance the adaptive-timeout machine by
    /// one step.
    pub fn record(&mut self, m: TimingResult)
        requires
            old(self).consecutive_timeout_failures < u32::MAX,
        ensures
            final(self).base_timeout_ms == old(self).base_timeout_ms,
            final(self).adaptive == old(self).adaptive,
            final(self).measurements@ == old(self).measurements@.push(m),
            (final(self).current_timeout_ms as int, final(self).consecutive_timeout_failures
                as int) == probe_step(
                old(self).base_timeout_ms as int,
                old(self).adaptive,
                old(self).current_timeout_ms as int,
                old(self).consecutive_timeout_failures as int,
                m,
            ),
    {
        let is_success = matches!(&m, TimingResult::Success { .. });
        if is_success {
            self.consecutive_timeout_failures = 0;
            if self.adaptive {
                self.current_timeout_ms = self.base_timeout_ms;
            }
        } else {
            let is_to = m.is_timeout();
            if self.adaptive && is_to {
                self.consecutive_timeout_failures = self.consecutive_timeout_failures + 1;
                if self.consecutive_timeout_failures >= MINIMIZE_TIMEOUT_AFTER_FAILURES {
                    self.current_timeout_ms = MINIMAL_TIMEOUT_MS;
                } else if self.consecutive_timeout_failures >= REDUCE_TIMEOUT_AFTER_FAILURES {
                    if self.current_timeout_ms > REDUCED_TIMEOUT_MS {
                        self.current_timeout_ms = REDUCED_TIMEOUT_MS;
                    }
                }
            }
        }
        self.measurements.push(m);
    }

    /// Hand the recorded measurements over for aggregation.
    pub fn into_measurements(self) -> (r: Vec<TimingResult>)
        ensures
            r@ == self.measurements@,
    {
        self.measurements
    }
}

} // verus!
