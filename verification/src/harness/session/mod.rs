//! Session lifecycle: its state, its history, its queues, and the decisions
//! taken around the runs of the agent loop.
use vstd::prelude::*;

use crate::harness::strategy::{
    ContextStrategy, RhythmStrategy, SessionStrategy, TerminationStrategy,
    DEFAULT_LOOP_INTERVAL_MS,
};
use crate::prompt::builder::{base_fragment, truncated, upsert_spec};
use crate::prompt::types::{FragmentKind, FragmentSource, FragmentView, PromptFragment, SourceView};
use crate::file_ops::strings_view;
use crate::prompt::PromptBuilder;
use crate::types::{contents_view, messages_view, AgentMessage, Content, ContentView, MessageView};

pub mod event_hub;
pub mod goal;
pub mod history;
pub mod state;

pub use event_hub::SessionEventHub;
pub use history::SessionHistory;
pub use state::{SessionState, SessionStateMachine};

verus! {

/// The texts of the text blocks, in order.
pub open spec fn text_blocks(c: Seq<ContentView>) -> Seq<Seq<char>>
    decreases c.len(),
{
    if c.len() == 0 {
        Seq::empty()
    } else {
        match c.last() {
            ContentView::Text { text } => text_blocks(c.drop_last()).push(text),
            _ => text_blocks(c.drop_last()),
        }
    }
}

/// The parts joined with `sep` between consecutive ones.
pub open spec fn join(parts: Seq<Seq<char>>, sep: Seq<char>) -> Seq<char>
    decreases parts.len(),
{
    if parts.len() == 0 {
        Seq::empty()
    } else if parts.len() == 1 {
        parts[0]
    } else {
        join(parts.drop_last(), sep) + sep + parts.last()
    }
}

/// Per assistant message, its text blocks joined by spaces.
pub open spec fn assistant_texts(m: Seq<MessageView>) -> Seq<Seq<char>>
    decreases m.len(),
{
    if m.len() == 0 {
        Seq::empty()
    } else {
        match m.last() {
            MessageView::Assistant { content, .. } => assistant_texts(m.drop_last()).push(
                join(text_blocks(content), " "@),
            ),
            _ => assistant_texts(m.drop_last()),
        }
    }
}

/// The text a completion returns: the assistant messages' texts, one per line.
pub open spec fn completion_spec(m: Seq<MessageView>) -> Seq<char> {
    join(assistant_texts(m), "\n"@)
}

fn join_strings(parts: &Vec<String>, sep: &str) -> (r: String)
    ensures
        r@ == join(parts@.map_values(|s: String| s@), sep@),
{
    let ghost pv = parts@.map_values(|s: String| s@);
    let mut r = String::new();
    for i in 0..parts.len()
        invariant
            pv == parts@.map_values(|s: String| s@),
            r@ == join(pv.take(i as int), sep@),
    {
        proof {
            assert(pv.take(i + 1).drop_last() =~= pv.take(i as int));
        }
        if i > 0 {
            r.append(sep);
        } else {
            proof {
                assert(r@ =~= Seq::<char>::empty());
            }
        }
        r.append(parts[i].as_str());
        proof {
            if i == 0 {
                assert(r@ =~= pv.take(1)[0]);
            }
            assert(r@ =~= join(pv.take(i + 1), sep@));
        }
    }
    proof {
        assert(pv.take(parts@.len() as int) =~= pv);
    }
    r
}

fn block_texts(content: &Vec<Content>) -> (r: Vec<String>)
    ensures
        r@.map_values(|s: String| s@) == text_blocks(contents_view(content@)),
{
    let mut r: Vec<String> = Vec::new();
    for i in 0..content.len()
        invariant
            r@.map_values(|s: String| s@) == text_blocks(contents_view(content@).take(i as int)),
    {
        proof {
            assert(contents_view(content@).take(i + 1).drop_last() =~= contents_view(
                content@,
            ).take(i as int));
        }
        match &content[i] {
            Content::Text { text } => {
                let t = text.clone();
                let ghost before = r@.map_values(|s: String| s@);
                r.push(t);
                proof {
                    assert(r@.map_values(|s: String| s@) =~= before.push(text@));
                }
            },
            _ => {},
        }
    }
    proof {
        assert(contents_view(content@).take(content@.len() as int) =~= contents_view(content@));
    }
    r
}

/// Resets a session: its token is cancelled (runs still going stop), its
/// history emptied, its recovery counters fresh, and it is idle without
/// error. The token stays the one that was cancelled, as the caller hands
/// it back.
pub fn reset_session(
    machine: &mut state::SessionStateMachine,
    history: &mut history::SessionHistory,
    max_retries: u32,
)
    ensures
        final(history)@ == (history::HistoryView { entries: Seq::empty(), ..old(history)@ }),
        final(machine)@ == (state::StateMachineView {
            state: SessionState::Idle,
            error_reason: None,
            recovery: crate::harness::error_recovery::fresh_recovery(max_retries),
        }),
        final(machine).token() == old(machine).token(),
{
    machine.abort();
    history.clear_entries();
    machine.reset_recovery_only(max_retries);
    machine.enter_idle();
    machine.clear_error();
}

/// What a completion that collects text deltas returns: the completion
/// text of the messages, and the deltas received while streaming, in order.
pub fn completion_with_deltas(messages: &Vec<AgentMessage>, deltas: Vec<String>) -> (r: (String, Vec<String>))
    ensures
        r.0@ == completion_spec(messages_view(messages@)),
        strings_view(r.1@) == strings_view(deltas@),
{
    (completion_text(messages), deltas)
}

/// The text a completion returns for the messages of a prompt.
pub fn completion_text(messages: &Vec<AgentMessage>) -> (r: String)
    ensures
        r@ == completion_spec(messages_view(messages@)),
{
    let mut texts: Vec<String> = Vec::new();
    for i in 0..messages.len()
        invariant
            texts@.map_values(|s: String| s@) == assistant_texts(messages_view(messages@).take(i as int)),
    {
        proof {
            assert(messages_view(messages@).take(i + 1).drop_last() =~= messages_view(
                messages@,
            ).take(i as int));
        }
        match &messages[i] {
            AgentMessage::Assistant(a) => {
                let blocks = block_texts(&a.content);
                let t = join_strings(&blocks, " ");
                let ghost before = texts@.map_values(|s: String| s@);
                let ghost tv = t@;
                texts.push(t);
                proof {
                    assert(texts@.map_values(|s: String| s@) =~= before.push(tv));
                }
            },
            _ => {},
        }
    }
    proof {
        assert(messages_view(messages@).take(messages@.len() as int) =~= messages_view(messages@));
    }
    join_strings(&texts, "\n")
}

/// How a prompt is run under the session's strategy.
#[derive(Debug, Clone, Copy, PartialEq, Eq, Structural)]
pub enum PromptPlan {
    /// One run of the loop.
    Single,
    /// Runs until the goal's criteria pass.
    Goal,
    /// A first run now, then one every `interval_ms` in the background (the
    /// run is goal-driven where `goal`).
    Loop { goal: bool, interval_ms: u64, max_iterations: Option<u32> },
}

/// The plan a strategy gives a prompt: a loop rhythm runs in the background
/// (with the default interval when none is set); otherwise the termination
/// decides between a single run and a goal-driven one.
pub open spec fn plan_spec(s: SessionStrategy) -> PromptPlan {
    match s.rhythm {
        RhythmStrategy::Loop { interval_ms, max_iterations } => PromptPlan::Loop {
            goal: s.termination is Goal,
            interval_ms: match interval_ms {
                Some(i) => i,
                None => DEFAULT_LOOP_INTERVAL_MS,
            },
            max_iterations,
        },
        RhythmStrategy::Once => if s.termination is Goal {
            PromptPlan::Goal
        } else {
            PromptPlan::Single
        },
    }
}

/// How a prompt is run under the session's strategy.
pub fn plan_prompt(strategy: &SessionStrategy) -> (r: PromptPlan)
    ensures
        r == plan_spec(*strategy),
{
    let goal = match &strategy.termination {
        TerminationStrategy::Goal { .. } => true,
        TerminationStrategy::Once => false,
    };
    match &strategy.rhythm {
        RhythmStrategy::Loop { interval_ms, max_iterations } => PromptPlan::Loop {
            goal,
            interval_ms: match interval_ms {
                Some(i) => *i,
                None => DEFAULT_LOOP_INTERVAL_MS,
            },
            max_iterations: *max_iterations,
        },
        RhythmStrategy::Once => if goal {
            PromptPlan::Goal
        } else {
            PromptPlan::Single
        },
    }
}

/// The background iterations of a loop-driven prompt (the first iteration
/// runs in the foreground and counts as number 1).
#[derive(Debug, Clone, Copy)]
pub struct BackgroundLoop {
    pub iteration: u32,
    pub max_iterations: Option<u32>,
}

impl BackgroundLoop {
    /// The loop after its first iteration.
    pub fn new(max_iterations: Option<u32>) -> (r: Self)
        ensures
            r == (BackgroundLoop { iteration: 1, max_iterations }),
    {
        BackgroundLoop { iteration: 1, max_iterations }
    }

    /// Whether another iteration is to come: not once the session was
    /// aborted or the maximum is reached.
    pub fn may_continue(&self, cancelled: bool) -> (b: bool)
        ensures
            b == (!cancelled && !(self.max_iterations matches Some(m) && self.iteration >= m)),
    {
        if cancelled {
            return false;
        }
        match self.max_iterations {
            Some(m) => self.iteration < m,
            None => true,
        }
    }

    /// Starts the next iteration and returns its number.
    pub fn begin_iteration(&mut self) -> (n: u32)
        requires
            old(self).iteration < u32::MAX,
        ensures
            *final(self) == (BackgroundLoop { iteration: (old(self).iteration + 1) as u32, ..*old(self) }),
            n == final(self).iteration,
    {
        self.iteration = self.iteration + 1;
        self.iteration
    }
}

/// The message a background iteration sends: the goal's first prompt for a
/// goal-driven loop, the task itself otherwise.
pub fn iteration_task(task: &str, termination: &TerminationStrategy) -> (r: String)
    requires
        termination matches TerminationStrategy::Goal { criteria, .. } ==> criteria@.len() < u64::MAX,
    ensures
        r@ == (match termination {
            TerminationStrategy::Goal { criteria, .. } => goal::initial_goal_prompt_spec(
                task@,
                criteria@,
            ),
            TerminationStrategy::Once => task@,
        }),
{
    match termination {
        TerminationStrategy::Goal { criteria, .. } => goal::build_initial_goal_prompt(task, criteria),
        TerminationStrategy::Once => task.to_owned(),
    }
}

/// The prompt builder of a background iteration: the base persona alone
/// when the context is cleared before each run, an empty builder otherwise.
pub fn iteration_builder(context: &ContextStrategy, base_persona: &str) -> (r: PromptBuilder)
    ensures
        r@ == (match context {
            ContextStrategy::Clear => seq![base_fragment(base_persona@)],
            _ => Seq::<FragmentView>::empty(),
        }),
{
    match context {
        ContextStrategy::Clear => PromptBuilder::from_base(base_persona.to_owned()),
        _ => PromptBuilder::default(),
    }
}

/// The fragment that carries the summary of the entries a compacting context
/// strategy dropped (or a note that summarizing failed).
pub open spec fn strategy_fragment_spec(summary: Option<Seq<char>>) -> FragmentView {
    FragmentView {
        id: "strategy-compaction"@,
        kind: FragmentKind::RuntimeInjection,
        source: SourceView::System,
        content: "## Prior context (compacted)\n\n"@ + match summary {
            Some(s) => s,
            None => "(compaction failed)"@,
        },
        priority: 150,
    }
}

/// The fragment that carries the summary of the dropped entries.
pub fn strategy_summary_fragment(summary: Option<String>) -> (r: PromptFragment)
    ensures
        r@ == strategy_fragment_spec(match summary {
            Some(s) => Some(s@),
            None => None,
        }),
{
    let text = match summary {
        Some(s) => s,
        None => "(compaction failed)".to_owned(),
    };
    PromptFragment {
        id: "strategy-compaction".to_owned(),
        kind: FragmentKind::RuntimeInjection,
        source: FragmentSource::System,
        content: "## Prior context (compacted)\n\n".to_owned().concat(text.as_str()),
        priority: 150,
    }
}

/// The skills directory fragment.
pub open spec fn skills_fragment(xml: Seq<char>) -> FragmentView {
    FragmentView {
        id: "skills-directory"@,
        kind: FragmentKind::SkillsDirectory,
        source: SourceView::SkillsInjector,
        content: xml,
        priority: 50,
    }
}

/// The prompt builder of a session: the system prompt as base persona, and
/// the skills directory (rendered as `skills_xml`) where the session has skills.
pub fn session_prompt_builder(system_prompt: String, skills_xml: Option<String>) -> (r: PromptBuilder)
    ensures
        r.wf(),
        r@ == (match skills_xml {
            Some(x) => upsert_spec(seq![base_fragment(system_prompt@)], truncated(skills_fragment(x@))),
            None => seq![base_fragment(system_prompt@)],
        }),
{
    let mut b = PromptBuilder::from_base(system_prompt);
    if let Some(xml) = skills_xml {
        b.upsert_fragment(
            PromptFragment {
                id: "skills-directory".to_owned(),
                kind: FragmentKind::SkillsDirectory,
                source: FragmentSource::SkillsInjector,
                content: xml,
                priority: 50,
            },
        );
    }
    b
}

} // verus!
