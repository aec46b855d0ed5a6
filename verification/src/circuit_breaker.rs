//! Circuit breaker for model provider calls.
//!
//! Prevents cascading failures by fast-failing requests when a provider
//! has recently failed repeatedly.
//!
//! ```text
//! Closed --[failures >= threshold]--> Open --[open duration elapsed]--> HalfOpen
//!   ^                                   |                                 |
//!   +---------------[success]-----------+-------------[success]-----------+
//! ```
//! A failure in HalfOpen reopens the circuit. Times are milliseconds since the
//! Unix epoch.
use vstd::prelude::*;

use crate::system::unix_time_ms;

verus! {

/// The phase of the breaker.
#[derive(Debug, Clone, Copy, PartialEq, Eq, Structural)]
pub enum BreakerState {
    Closed,
    Open,
    HalfOpen,
}

/// Error returned when the circuit breaker is open.
#[derive(Debug, Clone, Copy, PartialEq, Eq, Structural)]
pub enum CircuitBreakerError {
    /// Retry after `remaining_ms` milliseconds.
    Open { remaining_ms: u64 },
}

/// Elapsed time assumed when no failure time is known or the clock went back.
pub const FALLBACK_ELAPSED_MS: u64 = 3_600_000;

/// Per-provider circuit breaker.
///
/// Default thresholds: 5 consecutive failures open the circuit for 30 seconds,
/// after which 1 trial request is let through.
#[derive(Debug)]
pub struct CircuitBreaker {
    failure_threshold: u32,
    open_duration_ms: u64,
    half_open_max: u32,
    state: BreakerState,
    consecutive_failures: u32,
    half_open_requests: u32,
    last_failure_ms: u64,
}

/// Abstract value of a breaker.
pub struct BreakerView {
    pub failure_threshold: u32,
    pub open_duration_ms: u64,
    pub half_open_max: u32,
    pub state: BreakerState,
    pub consecutive_failures: u32,
    pub half_open_requests: u32,
    pub last_failure_ms: u64,
}

impl View for CircuitBreaker {
    type V = BreakerView;

    closed spec fn view(&self) -> BreakerView {
        BreakerView {
            failure_threshold: self.failure_threshold,
            open_duration_ms: self.open_duration_ms,
            half_open_max: self.half_open_max,
            state: self.state,
            consecutive_failures: self.consecutive_failures,
            half_open_requests: self.half_open_requests,
            last_failure_ms: self.last_failure_ms,
        }
    }
}

/// Time since the last recorded failure at `now`.
pub open spec fn elapsed_since_failure(b: BreakerView, now: u64) -> u64 {
    if b.last_failure_ms == 0 || now < b.last_failure_ms {
        FALLBACK_ELAPSED_MS
    } else {
        (now - b.last_failure_ms) as u64
    }
}

/// Admission of one request in the half-open phase.
pub open spec fn half_open_admit(b: BreakerView) -> (BreakerView, Result<(), CircuitBreakerError>) {
    if b.half_open_requests >= b.half_open_max {
        (b, Err(CircuitBreakerError::Open { remaining_ms: b.open_duration_ms }))
    } else {
        (BreakerView { half_open_requests: (b.half_open_requests + 1) as u32, ..b }, Ok(()))
    }
}

/// Whether a request may proceed at time `now`, and the breaker after asking.
pub open spec fn check_step(b: BreakerView, now: u64) -> (BreakerView, Result<(), CircuitBreakerError>) {
    match b.state {
        BreakerState::Closed => (b, Ok(())),
        BreakerState::HalfOpen => half_open_admit(b),
        BreakerState::Open => {
            let elapsed = elapsed_since_failure(b, now);
            if elapsed >= b.open_duration_ms {
                half_open_admit(
                    BreakerView { state: BreakerState::HalfOpen, half_open_requests: 0, ..b },
                )
            } else {
                (
                    b,
                    Err(
                        CircuitBreakerError::Open {
                            remaining_ms: (b.open_duration_ms - elapsed) as u64,
                        },
                    ),
                )
            }
        },
    }
}

/// The breaker after a successful request: the failures are forgotten and
/// an open or half-open circuit closes.
pub open spec fn success_step(b: BreakerView) -> BreakerView {
    if b.state != BreakerState::Closed {
        BreakerView {
            consecutive_failures: 0,
            state: BreakerState::Closed,
            half_open_requests: 0,
            ..b
        }
    } else {
        BreakerView { consecutive_failures: 0, ..b }
    }
}

/// The breaker after a failed request at time `now`.
pub open spec fn failure_step(b: BreakerView, now: u64) -> BreakerView {
    let failures = (b.consecutive_failures + 1) as u32;
    let c = BreakerView { consecutive_failures: failures, last_failure_ms: now, ..b };
    match b.state {
        BreakerState::Closed => if failures >= b.failure_threshold {
            BreakerView { state: BreakerState::Open, ..c }
        } else {
            c
        },
        BreakerState::HalfOpen => BreakerView {
            state: BreakerState::Open,
            half_open_requests: if b.half_open_requests == 0 {
                u32::MAX
            } else {
                (b.half_open_requests - 1) as u32
            },
            ..c
        },
        BreakerState::Open => c,
    }
}

impl CircuitBreaker {
    /// A circuit breaker with default thresholds.
    pub fn new() -> (r: Self)
        ensures
            r@ == (BreakerView {
                failure_threshold: 5,
                open_duration_ms: 30_000,
                half_open_max: 1,
                state: BreakerState::Closed,
                consecutive_failures: 0,
                half_open_requests: 0,
                last_failure_ms: 0,
            }),
    {
        Self::with_config(5, 30_000, 1)
    }

    /// A circuit breaker with custom thresholds.
    pub fn with_config(failure_threshold: u32, open_duration_ms: u64, half_open_max: u32) -> (r: Self)
        ensures
            r@ == (BreakerView {
                failure_threshold,
                open_duration_ms,
                half_open_max,
                state: BreakerState::Closed,
                consecutive_failures: 0,
                half_open_requests: 0,
                last_failure_ms: 0,
            }),
    {
        CircuitBreaker {
            failure_threshold,
            open_duration_ms,
            half_open_max,
            state: BreakerState::Closed,
            consecutive_failures: 0,
            half_open_requests: 0,
            last_failure_ms: 0,
        }
    }

    /// The failures counted in a row.
    pub fn consecutive_failures(&self) -> (n: u32)
        ensures
            n == self@.consecutive_failures,
    {
        self.consecutive_failures
    }

    /// The current phase.
    pub fn state(&self) -> (s: BreakerState)
        ensures
            s == self@.state,
    {
        self.state
    }

    fn half_open_admit(&mut self) -> (r: Result<(), CircuitBreakerError>)
        requires
            old(self)@.state == BreakerState::HalfOpen,
        ensures
            (final(self)@, r) == half_open_admit(old(self)@),
    {
        if self.half_open_requests >= self.half_open_max {
            Err(CircuitBreakerError::Open { remaining_ms: self.open_duration_ms })
        } else {
            self.half_open_requests = self.half_open_requests + 1;
            Ok(())
        }
    }

    /// Whether the circuit lets a request through at time `now_ms`.
    /// `Err` carries the remaining cool-down when the circuit is open.
    pub fn check_at(&mut self, now_ms: u64) -> (r: Result<(), CircuitBreakerError>)
        ensures
            (final(self)@, r) == check_step(old(self)@, now_ms),
    {
        match self.state {
            BreakerState::Closed => Ok(()),
            BreakerState::HalfOpen => self.half_open_admit(),
            BreakerState::Open => {
                let elapsed = if self.last_failure_ms == 0 || now_ms < self.last_failure_ms {
                    FALLBACK_ELAPSED_MS
                } else {
                    now_ms - self.last_failure_ms
                };
                if elapsed >= self.open_duration_ms {
                    self.state = BreakerState::HalfOpen;
                    self.half_open_requests = 0;
                    self.half_open_admit()
                } else {
                    Err(CircuitBreakerError::Open { remaining_ms: self.open_duration_ms - elapsed })
                }
            },
        }
    }

    /// Whether the circuit lets a request through now (read from the
    /// system clock).
    pub fn check(&mut self) -> (r: Result<(), CircuitBreakerError>)
        ensures
            exists|t: u64| (final(self)@, r) == check_step(old(self)@, t),
    {
        let now = unix_time_ms();
        self.check_at(now)
    }

    /// Record a successful request: failures are forgotten and an open or
    /// half-open circuit closes.
    pub fn record_success(&mut self)
        ensures
            final(self)@ == success_step(old(self)@),
    {
        self.consecutive_failures = 0;
        if self.state != BreakerState::Closed {
            self.state = BreakerState::Closed;
            self.half_open_requests = 0;
        }
    }

    /// Record a failed request at time `now_ms`: the circuit opens once the
    /// consecutive failures reach the threshold, and reopens from half-open.
    pub fn record_failure_at(&mut self, now_ms: u64)
        requires
            old(self)@.consecutive_failures < u32::MAX,
        ensures
            final(self)@ == failure_step(old(self)@, now_ms),
    {
        let failures = self.consecutive_failures + 1;
        self.consecutive_failures = failures;
        self.last_failure_ms = now_ms;
        match self.state {
            BreakerState::Closed => {
                if failures >= self.failure_threshold {
                    self.state = BreakerState::Open;
                }
            },
            BreakerState::HalfOpen => {
                self.state = BreakerState::Open;
                self.half_open_requests = if self.half_open_requests == 0 {
                    u32::MAX
                } else {
                    self.half_open_requests - 1
                };
            },
            BreakerState::Open => {},
        }
    }

    /// Record a failed request now (read from the system clock).
    pub fn record_failure(&mut self)
        requires
            old(self)@.consecutive_failures < u32::MAX,
        ensures
            exists|t: u64| final(self)@ == failure_step(old(self)@, t),
    {
        let now = unix_time_ms();
        self.record_failure_at(now)
    }
}

impl Default for CircuitBreaker {
    fn default() -> (r: Self)
        ensures
            r@ == (BreakerView {
                failure_threshold: 5,
                open_duration_ms: 30_000,
                half_open_max: 1,
                state: BreakerState::Closed,
                consecutive_failures: 0,
                half_open_requests: 0,
                last_failure_ms: 0,
            }),
    {
        Self::new()
    }
}

/// Law: a closed circuit lets every request through and does not change.
pub proof fn law_closed_admits(b: BreakerView, now: u64)
    requires
        b.state == BreakerState::Closed,
    ensures
        check_step(b, now) == (b, Ok::<(), CircuitBreakerError>(())),
{
}

/// Law: from a closed circuit with no recorded failures, `threshold`
/// consecutive failures (threshold at least 1) open it, and fewer do not.
pub proof fn law_threshold_failures_open(b: BreakerView, k: nat, now: u64)
    requires
        b.state == BreakerState::Closed,
        b.consecutive_failures == 0,
        1 <= b.failure_threshold,
        k <= b.failure_threshold,
    ensures
        failures_from(b, k, now).state == if k == b.failure_threshold {
            BreakerState::Open
        } else {
            BreakerState::Closed
        },
        failures_from(b, k, now).consecutive_failures == k,
    decreases k,
{
    if k > 0 {
        law_threshold_failures_open(b, (k - 1) as nat, now);
        let p = failures_from(b, (k - 1) as nat, now);
        assert(p.state == BreakerState::Closed);
        assert(p.consecutive_failures == k - 1);
        assert(failures_from(b, k, now) == failure_step(p, now));
        assert(p.failure_threshold == b.failure_threshold) by {
            lemma_failures_keep_config(b, (k - 1) as nat, now);
        }
    }
}

/// Recording failures never changes the configuration.
pub proof fn lemma_failures_keep_config(b: BreakerView, k: nat, now: u64)
    ensures
        failures_from(b, k, now).failure_threshold == b.failure_threshold,
        failures_from(b, k, now).open_duration_ms == b.open_duration_ms,
        failures_from(b, k, now).half_open_max == b.half_open_max,
    decreases k,
{
    if k > 0 {
        lemma_failures_keep_config(b, (k - 1) as nat, now);
    }
}

/// The breaker after `k` failures recorded at time `now`.
pub open spec fn failures_from(b: BreakerView, k: nat, now: u64) -> BreakerView
    decreases k,
{
    if k == 0 {
        b
    } else {
        failure_step(failures_from(b, (k - 1) as nat, now), now)
    }
}

/// Law: an open circuit fast-fails until the open duration has elapsed since
/// the last failure, reporting the remaining time, and stays as it is.
pub proof fn law_open_fast_fails(b: BreakerView, now: u64)
    requires
        b.state == BreakerState::Open,
        b.last_failure_ms != 0,
        b.last_failure_ms <= now,
        now - b.last_failure_ms < b.open_duration_ms,
    ensures
        check_step(b, now) == (b, Err::<(), CircuitBreakerError>(
            CircuitBreakerError::Open {
                remaining_ms: (b.open_duration_ms - (now - b.last_failure_ms)) as u64,
            },
        )),
{
}

/// Law: a half-open circuit admits at most `half_open_max` trial requests;
/// once they are out, further requests fail and change nothing.
pub proof fn law_half_open_limit(b: BreakerView, now: u64)
    requires
        b.state == BreakerState::HalfOpen,
    ensures
        b.half_open_requests >= b.half_open_max ==> check_step(b, now) == (b, Err::<
            (),
            CircuitBreakerError,
        >(CircuitBreakerError::Open { remaining_ms: b.open_duration_ms })),
        b.half_open_requests < b.half_open_max ==> check_step(b, now).1 is Ok && check_step(
            b,
            now,
        ).0.half_open_requests == b.half_open_requests + 1,
{
}

/// Law: a success closes a half-open circuit and clears the failure count;
/// a failure reopens it.
pub proof fn law_half_open_resolves(b: BreakerView, now: u64)
    requires
        b.state == BreakerState::HalfOpen,
        b.consecutive_failures < u32::MAX,
    ensures
        success_step(b).state == BreakerState::Closed,
        success_step(b).consecutive_failures == 0,
        failure_step(b, now).state == BreakerState::Open,
{
}

/// Law: after a success, whatever the phase, the circuit is closed with no
/// failures counted, and the next request is let through.
pub proof fn law_success_closes(b: BreakerView, now: u64)
    ensures
        success_step(b).state == BreakerState::Closed,
        success_step(b).consecutive_failures == 0,
        check_step(success_step(b), now).1 is Ok,
{
}

} // verus!
