//! Execution strategies of an agent session.
use vstd::prelude::*;

use crate::types::{messages_view, AgentMessage, MessageView};

verus! {

/// Default interval between loop iterations: 10 minutes, in milliseconds.
pub const DEFAULT_LOOP_INTERVAL_MS: u64 = 600_000;

/// Three-dimensional execution strategy for an agent session.
///
/// Each dimension is independently configurable. The default (`Once` + `Once`
/// + `Accumulate`) is the single-shot behaviour.
#[derive(Debug, Clone)]
pub struct SessionStrategy {
    pub termination: TerminationStrategy,
    pub rhythm: RhythmStrategy,
    pub context: ContextStrategy,
}

impl Default for SessionStrategy {
    fn default() -> (r: Self)
        ensures
            r.termination is Once,
            r.rhythm is Once,
            r.context is Accumulate,
    {
        SessionStrategy {
            termination: TerminationStrategy::Once,
            rhythm: RhythmStrategy::Once,
            context: ContextStrategy::Accumulate,
        }
    }
}

/// When a session stops.
#[derive(Debug, Clone)]
pub enum TerminationStrategy {
    /// Stop after a single agent run.
    Once,
    /// Verify acceptance criteria after each run. Keep retrying until
    /// all criteria pass or `max_attempts` is exhausted.
    Goal {
        criteria: Vec<GoalCriterion>,
        /// Maximum attempts including the first run.
        max_attempts: u32,
        /// What to do when attempts are exhausted.
        on_exhausted: GoalExhaustedAction,
    },
}

/// One acceptance criterion of a goal.
#[derive(Debug, Clone)]
pub struct GoalCriterion {
    pub id: String,
    pub description: String,
    pub verification: GoalVerification,
}

/// How a criterion is checked.
#[derive(Debug, Clone)]
pub enum GoalVerification {
    /// Agent self-assesses and outputs `[CRITERION_RESULT: id: PASS|FAIL]`.
    SelfAssessment,
    /// Run a command; exit 0 means pass.
    Command { command: String },
    /// Check that the assistant response contains the given text.
    OutputContains { text: String },
}

/// What happens when the attempts of a goal run out.
#[derive(Debug, Clone)]
pub enum GoalExhaustedAction {
    /// Return an error.
    Abort,
    /// Run one more time with the original task (no verification prompt),
    /// then return the result.
    ReturnLast,
}

/// Outcome of a goal-driven execution.
#[derive(Debug)]
pub enum GoalOutcome {
    Passed { messages: Vec<AgentMessage>, attempts: u32 },
    Exhausted { messages: Vec<AgentMessage>, attempts: u32 },
}

impl GoalOutcome {
    /// The messages of the outcome, whatever its variant.
    pub open spec fn messages_spec(self) -> Seq<MessageView> {
        match self {
            GoalOutcome::Passed { messages, .. } => messages_view(messages@),
            GoalOutcome::Exhausted { messages, .. } => messages_view(messages@),
        }
    }

    /// Extract messages regardless of variant.
    pub fn into_messages(self) -> (r: Vec<AgentMessage>)
        ensures
            messages_view(r@) == self.messages_spec(),
    {
        match self {
            GoalOutcome::Passed { messages, .. } => messages,
            GoalOutcome::Exhausted { messages, .. } => messages,
        }
    }
}

/// Result of evaluating all criteria against one agent response.
#[derive(Debug, Clone)]
pub struct CriteriaEvaluation {
    pub results: Vec<(String, bool)>,
}

/// The ids of the failed criteria, in order.
pub open spec fn failures_spec(results: Seq<(String, bool)>) -> Seq<Seq<char>>
    decreases results.len(),
{
    if results.len() == 0 {
        Seq::empty()
    } else if results.last().1 {
        failures_spec(results.drop_last())
    } else {
        failures_spec(results.drop_last()).push(results.last().0@)
    }
}

impl CriteriaEvaluation {
    /// Whether every criterion passed.
    pub fn all_passed(&self) -> (b: bool)
        ensures
            b == (forall|i: int| 0 <= i < self.results@.len() ==> #[trigger] self.results@[i].1),
    {
        let n = self.results.len();
        for i in 0..n
            invariant
                n == self.results@.len(),
                forall|m: int| 0 <= m < i ==> #[trigger] self.results@[m].1,
        {
            if !self.results[i].1 {
                return false;
            }
        }
        true
    }

    /// The ids of the criteria that failed, in order.
    pub fn failures(&self) -> (r: Vec<&str>)
        ensures
            r@.map_values(|s: &str| s@) == failures_spec(self.results@),
    {
        let mut r: Vec<&str> = Vec::new();
        let n = self.results.len();
        for i in 0..n
            invariant
                n == self.results@.len(),
                r@.map_values(|s: &str| s@) == failures_spec(self.results@.take(i as int)),
        {
            proof {
                assert(self.results@.take(i + 1).drop_last() =~= self.results@.take(i as int));
            }
            if !self.results[i].1 {
                r.push(self.results[i].0.as_str());
            }
            proof {
                assert(r@.map_values(|s: &str| s@) =~= failures_spec(self.results@.take(i + 1)));
            }
        }
        proof {
            assert(self.results@.take(n as int) =~= self.results@);
        }
        r
    }
}

/// When the agent runs.
#[derive(Debug, Clone)]
pub enum RhythmStrategy {
    /// Execute immediately, once.
    Once,
    /// Run in the background on a fixed interval.
    Loop {
        /// Milliseconds between iterations; `DEFAULT_LOOP_INTERVAL_MS` if absent.
        interval_ms: Option<u64>,
        /// Maximum iterations; `None` means unlimited.
        max_iterations: Option<u32>,
    },
}

/// What history each run sees.
#[derive(Debug, Clone)]
pub enum ContextStrategy {
    /// Retain all session history (default).
    Accumulate,
    /// Compact before each run, keeping the most recent N entries.
    Compact {
        /// Number of most recent entries to retain.
        keep_last_n: usize,
    },
    /// Clear all history and rebuild the prompt builder before each run.
    Clear,
}

} // verus!
