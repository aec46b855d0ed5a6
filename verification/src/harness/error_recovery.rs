//! Recovery decisions after a failed model response.
use vstd::prelude::*;

use crate::hook::context::CompactReason;
use crate::text::{contains_seq, str_contains, to_lowercase, unicode_lowercase};
use crate::types::{AssistantMessage, StopReason};

verus! {

/// What the session does after a response.
#[derive(Debug, Clone)]
pub enum RecoveryAction {
    Continue,
    RetryAfterBackoff { delay_ms: u64 },
    RetryAfterCompaction { reason: CompactReason },
    Abort { reason: String },
}

/// Abstract value of a recovery action.
pub enum ActionView {
    Continue,
    RetryAfterBackoff { delay_ms: u64 },
    RetryAfterCompaction { reason: CompactReason },
    Abort { reason: Seq<char> },
}

impl View for RecoveryAction {
    type V = ActionView;

    open spec fn view(&self) -> ActionView {
        match self {
            RecoveryAction::Continue => ActionView::Continue,
            RecoveryAction::RetryAfterBackoff { delay_ms } => ActionView::RetryAfterBackoff {
                delay_ms: *delay_ms,
            },
            RecoveryAction::RetryAfterCompaction { reason } => ActionView::RetryAfterCompaction {
                reason: *reason,
            },
            RecoveryAction::Abort { reason } => ActionView::Abort { reason: reason@ },
        }
    }
}

/// `2^n`.
pub open spec fn two_pow(n: nat) -> nat
    decreases n,
{
    if n == 0 {
        1
    } else {
        2 * two_pow((n - 1) as nat)
    }
}

/// Backoff before the `n`-th retry (counting from 1): 100 ms doubled each time.
pub open spec fn backoff_ms(n: nat) -> nat {
    100 * two_pow((n - 1) as nat)
}

/// Error text that signals a context-window overflow.
pub open spec fn overflow_text(e: Seq<char>) -> bool {
    let l = unicode_lowercase(e);
    contains_seq(l, "context length"@) || contains_seq(l, "token limit"@)
}

/// Error text that signals a transient provider failure.
pub open spec fn retryable_text(e: Seq<char>) -> bool {
    let l = unicode_lowercase(e);
    ||| contains_seq(l, "overloaded"@)
    ||| contains_seq(l, "rate limit"@)
    ||| contains_seq(l, "429"@)
    ||| contains_seq(l, "timeout"@)
    ||| contains_seq(l, "network error"@)
    ||| contains_seq(l, "service unavailable"@)
    ||| contains_seq(l, "fetch failed"@)
    ||| contains_seq(l, "terminated"@)
    ||| contains_seq(l, "500"@)
    ||| contains_seq(l, "502"@)
    ||| contains_seq(l, "503"@)
    ||| contains_seq(l, "504"@)
}

/// The response failed because the context window overflowed.
pub open spec fn context_overflow_spec(m: AssistantMessage) -> bool {
    &&& m.stop_reason == StopReason::Error
    &&& m.error_message matches Some(e) && overflow_text(e@)
}

/// The response failed transiently (and not by overflow).
pub open spec fn session_retryable_spec(m: AssistantMessage) -> bool {
    &&& m.stop_reason == StopReason::Error
    &&& m.error_message matches Some(e) && retryable_text(e@)
    &&& !context_overflow_spec(m)
}

/// Message of the abort that follows a second overflow.
pub open spec fn overflow_abort_reason() -> Seq<char> {
    "Context overflow recovery failed after compact-and-retry"@
}

/// Message of the abort that follows too many retries.
pub open spec fn retries_abort_reason() -> Seq<char> {
    "Max retry attempts exceeded"@
}

/// Tracks overflow and retry attempts of one session.
#[derive(Debug, Clone, Copy)]
pub struct RecoveryStateMachine {
    pub overflow_attempted: bool,
    pub retry_count: u32,
    pub max_retries: u32,
}

/// A machine before any attempt, allowing `max_retries` retries.
pub open spec fn fresh_recovery(max_retries: u32) -> RecoveryStateMachine {
    RecoveryStateMachine { overflow_attempted: false, retry_count: 0, max_retries }
}

/// One decision: the state after it and the action taken, given whether the
/// failure is an overflow and whether it is retryable.
pub open spec fn recovery_step(s: RecoveryStateMachine, overflow: bool, retryable: bool) -> (
    RecoveryStateMachine,
    ActionView,
) {
    if overflow {
        if s.overflow_attempted {
            (s, ActionView::Abort { reason: overflow_abort_reason() })
        } else {
            (
                RecoveryStateMachine { overflow_attempted: true, ..s },
                ActionView::RetryAfterCompaction { reason: CompactReason::Overflow },
            )
        }
    } else if retryable {
        let c = s.retry_count + 1;
        if c > s.max_retries {
            (
                RecoveryStateMachine { retry_count: 0, ..s },
                ActionView::Abort { reason: retries_abort_reason() },
            )
        } else {
            (
                RecoveryStateMachine { retry_count: c as u32, ..s },
                ActionView::RetryAfterBackoff { delay_ms: backoff_ms(c as nat) as u64 },
            )
        }
    } else {
        (s, ActionView::Continue)
    }
}

/// A retry step can be taken without overflowing the counter or the delay.
pub open spec fn retry_step_fits(s: RecoveryStateMachine) -> bool {
    s.retry_count < u32::MAX && (s.retry_count < 58 || s.retry_count >= s.max_retries)
}

/// `2^a <= 2^b` when `a <= b`.
pub proof fn lemma_two_pow_mono(a: nat, b: nat)
    requires
        a <= b,
    ensures
        two_pow(a) <= two_pow(b),
    decreases b,
{
    if a < b {
        lemma_two_pow_mono(a, (b - 1) as nat);
    }
}

/// `2^n` is the shift `1 << n` for shifts below 64.
pub proof fn lemma_two_pow_shift(n: u64)
    requires
        n < 64,
    ensures
        two_pow(n as nat) == (1u64 << n) as nat,
    decreases n,
{
    if n == 0 {
        assert((1u64 << 0u64) == 1u64) by (bit_vector);
    } else {
        lemma_two_pow_shift((n - 1) as u64);
        let m: u64 = (n - 1) as u64;
        assert(m < 63 ==> (1u64 << (m + 1)) == 2 * (1u64 << m)) by (bit_vector);
        assert(m + 1 == n);
    }
}

/// Backoff in milliseconds before retry number `n` (1-based).
pub(crate) fn backoff_delay(n: u32) -> (d: u64)
    requires
        1 <= n <= 58,
    ensures
        d == backoff_ms(n as nat),
{
    let k: u64 = (n - 1) as u64;
    proof {
        lemma_two_pow_shift(k);
        assert(k <= 57 ==> (1u64 << k) <= 144115188075855872u64) by (bit_vector);
    }
    100 * (1u64 << k)
}

impl RecoveryStateMachine {
    /// A fresh machine allowing `max_retries` retries.
    pub fn new(max_retries: u32) -> (r: Self)
        ensures
            r == (RecoveryStateMachine { overflow_attempted: false, retry_count: 0, max_retries }),
    {
        RecoveryStateMachine { overflow_attempted: false, retry_count: 0, max_retries }
    }

    /// The configured number of retries.
    pub fn max_attempts(&self) -> (r: u32)
        ensures
            r == self.max_retries,
    {
        self.max_retries
    }

    fn step(&mut self, overflow: bool, retryable: bool) -> (a: RecoveryAction)
        requires
            !overflow && retryable ==> retry_step_fits(*old(self)),
        ensures
            (*final(self), a@) == recovery_step(*old(self), overflow, retryable),
    {
        if overflow {
            if self.overflow_attempted {
                return RecoveryAction::Abort {
                    reason: String::from_str(
                        "Context overflow recovery failed after compact-and-retry",
                    ),
                };
            }
            self.overflow_attempted = true;
            return RecoveryAction::RetryAfterCompaction { reason: CompactReason::Overflow };
        }
        if retryable {
            self.retry_count = self.retry_count + 1;
            if self.retry_count > self.max_retries {
                self.retry_count = 0;
                return RecoveryAction::Abort {
                    reason: String::from_str("Max retry attempts exceeded"),
                };
            }
            let delay_ms = backoff_delay(self.retry_count);
            return RecoveryAction::RetryAfterBackoff { delay_ms };
        }
        RecoveryAction::Continue
    }

    /// Decide what to do after a model response: compact and retry once on
    /// overflow, back off and retry on a transient error (up to
    /// `max_retries` times), otherwise continue.
    pub fn evaluate(&mut self, msg: &AssistantMessage) -> (a: RecoveryAction)
        requires
            session_retryable_spec(*msg) ==> retry_step_fits(*old(self)),
        ensures
            (*final(self), a@) == recovery_step(
                *old(self),
                context_overflow_spec(*msg),
                session_retryable_spec(*msg),
            ),
    {
        let overflow = is_context_overflow(msg);
        let retryable = is_session_retryable(msg);
        self.step(overflow, retryable)
    }

    /// Decide what to do after a provider error given as text: compact and
    /// retry once on overflow, otherwise back off and retry.
    pub fn evaluate_overflow(&mut self, error_msg: &str) -> (a: RecoveryAction)
        requires
            !overflow_text(error_msg@) ==> retry_step_fits(*old(self)),
        ensures
            (*final(self), a@) == recovery_step(*old(self), overflow_text(error_msg@), true),
    {
        let overflow = is_overflow_text(error_msg);
        self.step(overflow, true)
    }

    /// A successful response clears the retry counter.
    pub fn mark_success(&mut self)
        ensures
            *final(self) == (RecoveryStateMachine { retry_count: 0, ..*old(self) }),
    {
        self.retry_count = 0;
    }

    /// Forget all attempts.
    pub fn reset(&mut self)
        ensures
            *final(self) == (RecoveryStateMachine {
                retry_count: 0,
                overflow_attempted: false,
                ..*old(self)
            }),
    {
        self.retry_count = 0;
        self.overflow_attempted = false;
    }
}

/// Whether error text signals a context-window overflow.
pub fn is_overflow_text(error_msg: &str) -> (b: bool)
    ensures
        b == overflow_text(error_msg@),
{
    let lower = to_lowercase(error_msg);
    let l = lower.as_str();
    proof {
        reveal_strlit("context length");
        reveal_strlit("token limit");
    }
    str_contains(l, "context length") || str_contains(l, "token limit")
}

/// Whether error text signals a transient provider failure.
pub fn is_retryable_text(error_msg: &str) -> (b: bool)
    ensures
        b == retryable_text(error_msg@),
{
    let lower = to_lowercase(error_msg);
    let l = lower.as_str();
    str_contains(l, "overloaded") || str_contains(l, "rate limit") || str_contains(l, "429")
        || str_contains(l, "timeout") || str_contains(l, "network error") || str_contains(
        l,
        "service unavailable",
    ) || str_contains(l, "fetch failed") || str_contains(l, "terminated") || str_contains(l, "500")
        || str_contains(l, "502") || str_contains(l, "503") || str_contains(l, "504")
}

/// Whether the response failed because the context window overflowed.
pub fn is_context_overflow(msg: &AssistantMessage) -> (b: bool)
    ensures
        b == context_overflow_spec(*msg),
{
    match &msg.error_message {
        Some(e) => msg.stop_reason == StopReason::Error && is_overflow_text(e.as_str()),
        None => false,
    }
}

/// Whether the response failed transiently (and not by overflow).
pub fn is_session_retryable(msg: &AssistantMessage) -> (b: bool)
    ensures
        b == session_retryable_spec(*msg),
{
    match &msg.error_message {
        Some(e) => msg.stop_reason == StopReason::Error && is_retryable_text(e.as_str())
            && !is_context_overflow(msg),
        None => false,
    }
}

/// Law: overflow recovery is attempted once; a second overflow aborts.
pub proof fn law_overflow_compacts_once(s: RecoveryStateMachine)
    ensures
        !s.overflow_attempted ==> recovery_step(s, true, false).1 == (ActionView::RetryAfterCompaction {
            reason: CompactReason::Overflow,
        }),
        recovery_step(recovery_step(s, true, false).0, true, false).1 == (ActionView::Abort {
            reason: overflow_abort_reason(),
        }),
{
}

/// Law: successive transient failures back off 100 ms, 200 ms, 400 ms, ...
/// until `max_retries` is exceeded, which aborts and clears the counter.
pub proof fn law_backoff_doubles(s: RecoveryStateMachine)
    requires
        s.retry_count + 1 < s.max_retries,
    ensures
        ({
            let (s1, a1) = recovery_step(s, false, true);
            let (s2, a2) = recovery_step(s1, false, true);
            &&& a1 is RetryAfterBackoff && a2 is RetryAfterBackoff
            &&& backoff_ms(s1.retry_count as nat) * 2 == backoff_ms(s2.retry_count as nat)
        }),
        recovery_step(RecoveryStateMachine { retry_count: s.max_retries, ..s }, false, true)
            == (RecoveryStateMachine { retry_count: 0, ..s }, ActionView::Abort {
            reason: retries_abort_reason(),
        }),
{
}

/// The machine after `n` transient failures in a row.
pub open spec fn transient_failures(s: RecoveryStateMachine, n: nat) -> RecoveryStateMachine
    decreases n,
{
    if n == 0 {
        s
    } else {
        recovery_step(transient_failures(s, (n - 1) as nat), false, true).0
    }
}

/// From a fresh machine, `k` transient failures (at most the limit) count
/// `k` retries.
pub proof fn lemma_transient_failures_fresh(max: u32, k: nat)
    requires
        k <= max,
    ensures
        transient_failures(fresh_recovery(max), k) == (RecoveryStateMachine {
            retry_count: k as u32,
            ..fresh_recovery(max)
        }),
    decreases k,
{
    if k > 0 {
        lemma_transient_failures_fresh(max, (k - 1) as nat);
    }
}

/// Law: from a fresh machine with limit `max`, the `n`-th transient failure
/// in a row (`n` at most `max`) is retried after 100 * 2^(n-1) ms, and the
/// failure after the `max`-th retry aborts and clears the counter.
pub proof fn law_backoff_sequence(max: u32, n: nat)
    requires
        1 <= n <= max + 1,
    ensures
        ({
            let (s, a) = recovery_step(transient_failures(fresh_recovery(max), (n - 1) as nat), false, true);
            &&& n <= max ==> a == (ActionView::RetryAfterBackoff { delay_ms: backoff_ms(n) as u64 })
                && s.retry_count == n
            &&& n == max + 1 ==> a == (ActionView::Abort { reason: retries_abort_reason() })
                && s == fresh_recovery(max)
        }),
{
    lemma_transient_failures_fresh(max, (n - 1) as nat);
}

/// The error text, lower-cased, names one of the transient conditions:
/// overloaded, rate limit, 429, timeout, network error, service
/// unavailable, fetch failed, terminated, 500, 502, 503 or 504.
pub open spec fn names_transient_condition(e: Seq<char>) -> bool {
    let l = unicode_lowercase(e);
    ||| contains_seq(l, "overloaded"@)
    ||| contains_seq(l, "rate limit"@)
    ||| contains_seq(l, "429"@)
    ||| contains_seq(l, "timeout"@)
    ||| contains_seq(l, "network error"@)
    ||| contains_seq(l, "service unavailable"@)
    ||| contains_seq(l, "fetch failed"@)
    ||| contains_seq(l, "terminated"@)
    ||| contains_seq(l, "500"@)
    ||| contains_seq(l, "502"@)
    ||| contains_seq(l, "503"@)
    ||| contains_seq(l, "504"@)
}

/// Law: an `Error` response whose message names a transient condition (and
/// does not report an overflow) is retried: the provider call retries it,
/// and a session with retries left backs off 100 ms before its first retry.
pub proof fn law_transient_markers(m: AssistantMessage, max_retries: u32)
    requires
        m.stop_reason == StopReason::Error,
        m.error_message matches Some(e) && names_transient_condition(e@) && !overflow_text(e@),
        max_retries >= 1,
    ensures
        crate::harness::agent_loop::response_retryable(m),
        session_retryable_spec(m),
        recovery_step(fresh_recovery(max_retries), context_overflow_spec(m), session_retryable_spec(m))
            == (RecoveryStateMachine { retry_count: 1, ..fresh_recovery(max_retries) }, ActionView::RetryAfterBackoff {
            delay_ms: 100,
        }),
{
    assert(two_pow(0) == 1);
    assert(backoff_ms(1) == 100);
}

} // verus!
