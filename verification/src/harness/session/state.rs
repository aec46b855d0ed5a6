//! The lifecycle state of a session, its error reason, its recovery
//! counters and its cancellation token.
use vstd::prelude::*;

use tokio_util::sync::CancellationToken;

use crate::error::{AgentError, AgentErrorView};
use crate::harness::compaction::{should_compact, should_compact_spec, CompactionConfig};
use crate::harness::error_recovery::{
    context_overflow_spec, fresh_recovery, overflow_text, recovery_step, retry_step_fits,
    session_retryable_spec, ActionView, RecoveryAction, RecoveryStateMachine,
};
use crate::hook::context::CompactReason;
use crate::types::{assistant_view, messages_view, opt_str_view, AgentMessage, AssistantMessage, MessageView, StopReason};

verus! {

/// A cancellation token shared by a session and the runs it starts.
#[verifier::external_type_specification]
#[verifier::external_body]
pub struct ExCancellationToken(CancellationToken);

/// `CancellationToken::new`: a token that is not cancelled. Cancellation
/// state is shared between clones and reaches child tokens; nothing of it is
/// stated here.
pub assume_specification[ CancellationToken::new ]() -> (r: CancellationToken);

/// `CancellationToken::child_token`: a token cancelled whenever this one is.
/// The child is a new node of the token tree, so it is not equal to its
/// parent (the crate's `==` compares the shared node, and its documentation
/// says parent and child tokens are not equal). That the child is cancelled
/// with its parent is shared, changing state and is not stated.
pub assume_specification[ CancellationToken::child_token ](t: &CancellationToken) -> (r:
    CancellationToken)
    ensures
        r != *t,
;

/// `CancellationToken::cancel`: cancels the token and its children.
pub assume_specification[ CancellationToken::cancel ](t: &CancellationToken);

/// `CancellationToken::clone`: a handle on the same token. A token holds
/// only a shared pointer to its node, and the clone holds the same pointer,
/// so the two are the same value (the crate's `==` says so too).
pub assume_specification[ <CancellationToken as Clone>::clone ](t: &CancellationToken) -> (r:
    CancellationToken)
    ensures
        r == *t,
;

/// Explicit session state machine.
#[derive(Debug, Clone, Copy, PartialEq, Eq, Structural)]
pub enum SessionState {
    /// Session created, no turn in progress.
    Idle,
    /// A run of the agent loop is in progress.
    Running,
    /// An unrecoverable error occurred; a reset is required.
    Error,
}

/// The session's state, error reason, recovery counters and abort token.
pub struct SessionStateMachine {
    state: SessionState,
    error_reason: Option<String>,
    recovery: RecoveryStateMachine,
    abort_token: CancellationToken,
}

/// Abstract value of a session state machine (its token aside).
pub struct StateMachineView {
    pub state: SessionState,
    pub error_reason: Option<Seq<char>>,
    pub recovery: RecoveryStateMachine,
}

impl View for SessionStateMachine {
    type V = StateMachineView;

    closed spec fn view(&self) -> StateMachineView {
        StateMachineView {
            state: self.state,
            error_reason: opt_str_view(self.error_reason),
            recovery: self.recovery,
        }
    }
}

impl SessionStateMachine {
    /// An idle machine without error, allowing `max_retries` retries.
    pub fn new(max_retries: u32) -> (r: Self)
        ensures
            r@ == (StateMachineView {
                state: SessionState::Idle,
                error_reason: None,
                recovery: fresh_recovery(max_retries),
            }),
    {
        SessionStateMachine {
            state: SessionState::Idle,
            error_reason: None,
            recovery: RecoveryStateMachine::new(max_retries),
            abort_token: CancellationToken::new(),
        }
    }

    /// No run in progress (the error reason is left as it is).
    pub fn enter_idle(&mut self)
        ensures
            final(self)@ == (StateMachineView { state: SessionState::Idle, ..old(self)@ }),
            final(self).token() == old(self).token(),
    {
        self.state = SessionState::Idle;
    }

    /// A run is in progress.
    pub fn enter_running(&mut self)
        ensures
            final(self)@ == (StateMachineView { state: SessionState::Running, ..old(self)@ }),
    {
        self.state = SessionState::Running;
    }

    /// An unrecoverable error, with its reason.
    pub fn enter_error(&mut self, reason: String)
        ensures
            final(self)@ == (StateMachineView {
                state: SessionState::Error,
                error_reason: Some(reason@),
                ..old(self)@
            }),
    {
        self.state = SessionState::Error;
        self.error_reason = Some(reason);
    }

    /// Back to idle, without error.
    pub fn clear_error(&mut self)
        ensures
            final(self)@ == (StateMachineView {
                state: SessionState::Idle,
                error_reason: None,
                ..old(self)@
            }),
            final(self).token() == old(self).token(),
    {
        self.state = SessionState::Idle;
        self.error_reason = None;
    }

    /// The current state.
    pub fn state(&self) -> (s: SessionState)
        ensures
            s == self@.state,
    {
        self.state
    }

    /// Whether a run is in progress.
    pub fn is_streaming(&self) -> (b: bool)
        ensures
            b == (self@.state == SessionState::Running),
    {
        self.state == SessionState::Running
    }

    /// The reason of the last unrecoverable error, if it was not cleared.
    pub fn error_reason(&self) -> (r: Option<String>)
        ensures
            opt_str_view(r) == self@.error_reason,
    {
        match &self.error_reason {
            Some(s) => Some(s.clone()),
            None => None,
        }
    }

    /// The recovery counters.
    pub fn recovery(&self) -> (r: &RecoveryStateMachine)
        ensures
            *r == self@.recovery,
    {
        &self.recovery
    }

    /// Replaces the recovery counters.
    pub fn set_recovery(&mut self, recovery: RecoveryStateMachine)
        ensures
            final(self)@ == (StateMachineView { recovery, ..old(self)@ }),
    {
        self.recovery = recovery;
    }

    /// The session's current abort token.
    pub closed spec fn token(&self) -> CancellationToken {
        self.abort_token
    }

    /// A handle on the session's abort token.
    pub fn abort_token(&self) -> (t: CancellationToken)
        ensures
            t == self.token(),
    {
        self.abort_token.clone()
    }

    /// A token cancelled whenever the session is aborted: a child of the
    /// session's token, not the token itself.
    pub fn child_token(&self) -> (t: CancellationToken)
        ensures
            t != self.token(),
    {
        self.abort_token.child_token()
    }

    /// Cancels the session's token and every token derived from it.
    pub fn abort(&self) {
        self.abort_token.cancel();
    }

    /// A fresh token, fresh recovery counters, idle without error.
    pub fn reset(&mut self, max_retries: u32)
        ensures
            final(self)@ == (StateMachineView {
                state: SessionState::Idle,
                error_reason: None,
                recovery: fresh_recovery(max_retries),
            }),
    {
        self.abort_token = CancellationToken::new();
        self.recovery = RecoveryStateMachine::new(max_retries);
        self.state = SessionState::Idle;
        self.error_reason = None;
    }

    /// A fresh token (each run of the session starts with one).
    pub fn reset_abort_token(&mut self)
        ensures
            final(self)@ == old(self)@,
    {
        self.abort_token = CancellationToken::new();
    }

    /// Fresh recovery counters only.
    pub fn reset_recovery_only(&mut self, max_retries: u32)
        ensures
            final(self)@ == (StateMachineView {
                recovery: fresh_recovery(max_retries),
                ..old(self)@
            }),
            final(self).token() == old(self).token(),
    {
        self.recovery = RecoveryStateMachine::new(max_retries);
    }
}

/// What the session does after a run of the loop.
#[derive(Debug)]
pub enum RunOutcome {
    /// The run stands: its messages join the history.
    Accept(Vec<AgentMessage>),
    /// Wait `delay_ms` (an abort meanwhile fails the prompt), then run again.
    Backoff { delay_ms: u64 },
    /// Compact the history, then run again.
    Compact,
    /// The prompt fails with this error.
    Fail(AgentError),
}

/// Abstract value of a run outcome.
pub enum RunOutcomeView {
    Accept(Seq<MessageView>),
    Backoff { delay_ms: u64 },
    Compact,
    Fail(AgentErrorView),
}

impl View for RunOutcome {
    type V = RunOutcomeView;

    open spec fn view(&self) -> RunOutcomeView {
        match self {
            RunOutcome::Accept(m) => RunOutcomeView::Accept(messages_view(m@)),
            RunOutcome::Backoff { delay_ms } => RunOutcomeView::Backoff { delay_ms: *delay_ms },
            RunOutcome::Compact => RunOutcomeView::Compact,
            RunOutcome::Fail(e) => RunOutcomeView::Fail(e@),
        }
    }
}

/// Index of the last assistant message that did not stop for tool use.
pub open spec fn last_settled(m: Seq<MessageView>) -> Option<int>
    decreases m.len(),
{
    if m.len() == 0 {
        None
    } else {
        match m.last() {
            MessageView::Assistant { stop_reason, .. } => if stop_reason != StopReason::ToolUse {
                Some(m.len() - 1)
            } else {
                last_settled(m.drop_last())
            },
            _ => last_settled(m.drop_last()),
        }
    }
}

/// The response failed by overflowing the context window.
pub open spec fn overflowed(m: MessageView) -> bool {
    &&& m matches MessageView::Assistant { stop_reason, error_message, .. }
    &&& stop_reason == StopReason::Error
    &&& error_message matches Some(e) && overflow_text(e)
}

/// The response failed transiently (and not by overflow).
pub open spec fn transient(m: MessageView) -> bool {
    &&& m matches MessageView::Assistant { stop_reason, error_message, .. }
    &&& stop_reason == StopReason::Error
    &&& error_message matches Some(e) && crate::harness::error_recovery::retryable_text(e)
    &&& !overflowed(m)
}

/// After a successful run: the last settled response decides by the
/// recovery rules; whatever it decides, the retry counter is cleared, and an
/// abort puts the session in error.
pub open spec fn after_success(s: StateMachineView, msgs: Seq<MessageView>) -> (StateMachineView, RunOutcomeView) {
    let s1 = StateMachineView { state: SessionState::Idle, ..s };
    match last_settled(msgs) {
        None => (s1, RunOutcomeView::Accept(msgs)),
        Some(k) => {
            let (r, a) = recovery_step(s.recovery, overflowed(msgs[k]), transient(msgs[k]));
            let r2 = RecoveryStateMachine { retry_count: 0, ..r };
            let s2 = StateMachineView { recovery: r2, ..s1 };
            match a {
                ActionView::Continue => (s2, RunOutcomeView::Accept(msgs)),
                ActionView::RetryAfterBackoff { delay_ms } => (s2, RunOutcomeView::Backoff { delay_ms }),
                ActionView::RetryAfterCompaction { .. } => (s2, RunOutcomeView::Compact),
                ActionView::Abort { reason } => (
                    StateMachineView { state: SessionState::Error, error_reason: Some(reason), ..s2 },
                    RunOutcomeView::Fail(AgentErrorView::RecoveryAborted(reason)),
                ),
            }
        },
    }
}

/// After a failed run: a cancellation fails the prompt; an overflow is
/// compacted once (a second one puts the session in error); any other error
/// puts the session in error and fails the prompt.
pub open spec fn after_failure(s: StateMachineView, e: AgentErrorView) -> (StateMachineView, RunOutcomeView) {
    let s1 = StateMachineView { state: SessionState::Idle, ..s };
    match e {
        AgentErrorView::Cancelled => (s1, RunOutcomeView::Fail(AgentErrorView::Cancelled)),
        AgentErrorView::ContextOverflow(msg) => {
            let (r, a) = recovery_step(s.recovery, overflow_text(msg), true);
            match a {
                ActionView::RetryAfterCompaction { .. } => (
                    StateMachineView { recovery: RecoveryStateMachine { retry_count: 0, ..r }, ..s1 },
                    RunOutcomeView::Compact,
                ),
                ActionView::RetryAfterBackoff { delay_ms } => (
                    StateMachineView { recovery: RecoveryStateMachine { retry_count: 0, ..r }, ..s1 },
                    RunOutcomeView::Backoff { delay_ms },
                ),
                ActionView::Abort { reason } => (
                    StateMachineView {
                        state: SessionState::Error,
                        error_reason: Some(reason),
                        recovery: r,
                        ..s1
                    },
                    RunOutcomeView::Fail(AgentErrorView::CompactionFailed(reason)),
                ),
                ActionView::Continue => (
                    StateMachineView {
                        state: SessionState::Error,
                        error_reason: Some(msg),
                        recovery: r,
                        ..s1
                    },
                    RunOutcomeView::Fail(AgentErrorView::ContextOverflow(msg)),
                ),
            }
        },
        _ => (
            StateMachineView { state: SessionState::Error, error_reason: Some(e.text()), ..s1 },
            RunOutcomeView::Fail(e),
        ),
    }
}

/// What a threshold check after a prompt does.
#[derive(Debug)]
pub enum CompactionCheck {
    Skip,
    Compact(CompactReason),
    /// A second overflow: the compaction recovery already ran once.
    Fail(AgentError),
}

/// Message of a second overflow found after a prompt.
pub open spec fn overflow_again_reason() -> Seq<char> {
    "Context overflow recovery failed after one compact-and-retry attempt"@
}

impl SessionStateMachine {
    /// A prompt is refused while the session is in error.
    pub fn check_usable(&self) -> (r: Result<(), AgentError>)
        ensures
            self@.state == SessionState::Error ==> (r matches Err(e) && e@ == (AgentErrorView::SessionInError {
                reason: match self@.error_reason {
                    Some(t) => t,
                    None => Seq::empty(),
                },
            })),
            self@.state != SessionState::Error ==> r is Ok,
    {
        if self.state == SessionState::Error {
            let reason = match &self.error_reason {
                Some(t) => t.clone(),
                None => String::new(),
            };
            Err(AgentError::SessionInError { reason })
        } else {
            Ok(())
        }
    }

    fn last_settled_index(msgs: &Vec<AgentMessage>) -> (r: Option<usize>)
        ensures
            r matches Some(k) ==> last_settled(messages_view(msgs@)) == Some(k as int) && k < msgs@.len(),
            r is None ==> last_settled(messages_view(msgs@)) is None,
    {
        let mut i = msgs.len();
        proof {
            assert(messages_view(msgs@).take(i as int) =~= messages_view(msgs@));
        }
        while i > 0
            invariant
                i <= msgs@.len(),
                last_settled(messages_view(msgs@)) == last_settled(messages_view(msgs@).take(i as int)),
            decreases i,
        {
            proof {
                assert(messages_view(msgs@).take(i as int).drop_last() =~= messages_view(msgs@).take(
                    i - 1,
                ));
            }
            match &msgs[i - 1] {
                AgentMessage::Assistant(a) => {
                    if a.stop_reason != StopReason::ToolUse {
                        return Some(i - 1);
                    }
                },
                _ => {},
            }
            i = i - 1;
        }
        None
    }

    fn take_action(&mut self, a: RecoveryAction, msgs: Vec<AgentMessage>) -> (r: RunOutcome)
        ensures
            final(self)@.recovery == (RecoveryStateMachine { retry_count: 0, ..old(self)@.recovery }),
            a@ is Continue ==> r@ == RunOutcomeView::Accept(messages_view(msgs@)) && final(self)@.state == old(self)@.state && final(self)@.error_reason == old(self)@.error_reason,
            a@ is RetryAfterBackoff ==> r@ == (RunOutcomeView::Backoff { delay_ms: a@->RetryAfterBackoff_delay_ms }) && final(self)@.state == old(self)@.state && final(self)@.error_reason == old(self)@.error_reason,
            a@ is RetryAfterCompaction ==> r@ == RunOutcomeView::Compact && final(self)@.state == old(self)@.state && final(self)@.error_reason == old(self)@.error_reason,
            a@ is Abort ==> r@ == RunOutcomeView::Fail(AgentErrorView::RecoveryAborted(a@->Abort_reason)) && final(self)@.state == SessionState::Error && final(self)@.error_reason == Some(a@->Abort_reason),
    {
        self.recovery.mark_success();
        match a {
            RecoveryAction::Continue => RunOutcome::Accept(msgs),
            RecoveryAction::RetryAfterBackoff { delay_ms } => RunOutcome::Backoff { delay_ms },
            RecoveryAction::RetryAfterCompaction { .. } => RunOutcome::Compact,
            RecoveryAction::Abort { reason } => {
                self.enter_error(reason.clone());
                RunOutcome::Fail(AgentError::RecoveryAborted(reason))
            },
        }
    }

    /// Decides what follows a run of the loop, given its result, and updates
    /// the state and the recovery counters accordingly.
    pub fn after_run(&mut self, result: Result<Vec<AgentMessage>, AgentError>) -> (r: RunOutcome)
        requires
            retry_step_fits(old(self)@.recovery),
        ensures
            match result {
                Ok(msgs) => (final(self)@, r@) == after_success(old(self)@, messages_view(msgs@)),
                Err(e) => (final(self)@, r@) == after_failure(old(self)@, e@),
            },
    {
        self.enter_idle();
        match result {
            Ok(msgs) => {
                match Self::last_settled_index(&msgs) {
                    None => RunOutcome::Accept(msgs),
                    Some(k) => {
                        let a = match &msgs[k] {
                            AgentMessage::Assistant(am) => {
                                proof {
                                    assert(messages_view(msgs@)[k as int] == assistant_view(*am));
                                }
                                self.recovery.evaluate(am)
                            },
                            _ => RecoveryAction::Continue,
                        };
                        self.take_action(a, msgs)
                    },
                }
            },
            Err(AgentError::Cancelled) => RunOutcome::Fail(AgentError::Cancelled),
            Err(AgentError::ContextOverflow(msg)) => {
                let a = self.recovery.evaluate_overflow(msg.as_str());
                match a {
                    RecoveryAction::RetryAfterCompaction { .. } => {
                        self.recovery.mark_success();
                        RunOutcome::Compact
                    },
                    RecoveryAction::RetryAfterBackoff { delay_ms } => {
                        self.recovery.mark_success();
                        RunOutcome::Backoff { delay_ms }
                    },
                    RecoveryAction::Abort { reason } => {
                        self.enter_error(reason.clone());
                        RunOutcome::Fail(AgentError::CompactionFailed(reason))
                    },
                    RecoveryAction::Continue => {
                        self.enter_error(msg.clone());
                        RunOutcome::Fail(AgentError::ContextOverflow(msg))
                    },
                }
            },
            Err(other) => {
                let text = other.to_string();
                self.enter_error(text);
                RunOutcome::Fail(other)
            },
        }
    }

    /// The check after a prompt: nothing when compaction is disabled, the
    /// response was aborted or predates the last compaction; an overflowed
    /// response is compacted once (a second time fails); otherwise the
    /// history is compacted when `context_tokens` crosses the threshold.
    pub fn check_compaction(
        &mut self,
        config: &CompactionConfig,
        last: &AssistantMessage,
        last_compaction_ms: Option<u64>,
        context_tokens: usize,
        context_window: usize,
    ) -> (r: CompactionCheck)
        ensures
            ({
                let skip = !config.enabled || last.stop_reason == StopReason::Aborted || (
                last_compaction_ms matches Some(ts) && last.timestamp <= ts);
                &&& skip ==> r is Skip && final(self)@ == old(self)@
                &&& !skip && context_overflow_spec(*last) && old(self)@.recovery.overflow_attempted
                    ==> (r matches CompactionCheck::Fail(e) && e@ == AgentErrorView::CompactionFailed(
                    overflow_again_reason(),
                )) && final(self)@ == old(self)@
                &&& !skip && context_overflow_spec(*last) && !old(self)@.recovery.overflow_attempted
                    ==> (r matches CompactionCheck::Compact(reason) && reason == CompactReason::Overflow)
                    && final(self)@ == (StateMachineView {
                    recovery: RecoveryStateMachine { overflow_attempted: true, ..old(self)@.recovery },
                    ..old(self)@
                })
                &&& !skip && !context_overflow_spec(*last) ==> final(self)@ == old(self)@ && (if should_compact_spec(
                    context_tokens,
                    context_window,
                    *config,
                ) {
                    r matches CompactionCheck::Compact(reason) && reason == CompactReason::Threshold
                } else {
                    r is Skip
                })
            }),
    {
        if !config.enabled || last.stop_reason == StopReason::Aborted {
            return CompactionCheck::Skip;
        }
        if let Some(ts) = last_compaction_ms {
            if last.timestamp <= ts {
                return CompactionCheck::Skip;
            }
        }
        if crate::harness::error_recovery::is_context_overflow(last) {
            if self.recovery.overflow_attempted {
                return CompactionCheck::Fail(
                    AgentError::CompactionFailed(
                        "Context overflow recovery failed after one compact-and-retry attempt".to_owned(),
                    ),
                );
            }
            self.recovery.overflow_attempted = true;
            return CompactionCheck::Compact(CompactReason::Overflow);
        }
        if should_compact(context_tokens, context_window, config) {
            CompactionCheck::Compact(CompactReason::Threshold)
        } else {
            CompactionCheck::Skip
        }
    }
}

/// The last assistant message that did not stop for tool use is the one
/// at `k` when none after it qualifies.
proof fn lemma_last_settled_at(m: Seq<MessageView>, k: int)
    requires
        0 <= k < m.len(),
        m[k] matches MessageView::Assistant { stop_reason, .. } && stop_reason != StopReason::ToolUse,
        forall|j: int|
            k < j < m.len() ==> !(#[trigger] m[j] matches MessageView::Assistant { stop_reason, .. }
                && stop_reason != StopReason::ToolUse),
    ensures
        last_settled(m) == Some(k),
    decreases m.len(),
{
    if k < m.len() - 1 {
        let d = m.drop_last();
        assert forall|j: int| k < j < d.len() implies !(#[trigger] d[j] matches MessageView::Assistant {
            stop_reason,
            ..
        } && stop_reason != StopReason::ToolUse) by {
            assert(d[j] == m[j]);
        }
        assert(d[k] == m[k]);
        lemma_last_settled_at(d, k);
        assert(!(m[m.len() - 1] matches MessageView::Assistant { stop_reason, .. } && stop_reason
            != StopReason::ToolUse));
        assert(m.last() == m[m.len() - 1]);
    } else {
        assert(m.last() == m[k]);
    }
}

/// Law: after a run whose last settled response (the last assistant
/// message not stopped for tool use) is an `Error` stop reporting a context
/// overflow, a session that has not yet tried overflow recovery compacts and
/// runs again, and records that it tried.
pub proof fn law_overflow_response_compacts(s: StateMachineView, msgs: Seq<MessageView>, k: int, e: Seq<char>)
    requires
        !s.recovery.overflow_attempted,
        0 <= k < msgs.len(),
        msgs[k] matches MessageView::Assistant { stop_reason, error_message, .. } && stop_reason
            == StopReason::Error && error_message == Some(e),
        overflow_text(e),
        forall|j: int|
            k < j < msgs.len() ==> !(#[trigger] msgs[j] matches MessageView::Assistant {
                stop_reason,
                ..
            } && stop_reason != StopReason::ToolUse),
    ensures
        after_success(s, msgs).1 == RunOutcomeView::Compact,
        after_success(s, msgs).0.recovery.overflow_attempted,
        after_success(s, msgs).0.state == SessionState::Idle,
{
    lemma_last_settled_at(msgs, k);
}

} // verus!
