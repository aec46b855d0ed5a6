//! Goal-driven runs: the prompts that state the acceptance criteria, the
//! evaluation of a response against them, and the attempts around them.
use vstd::prelude::*;

use crate::error::{AgentError, AgentErrorView};
use crate::file_ops::strings_view;
use crate::harness::strategy::{
    CriteriaEvaluation, GoalCriterion, GoalExhaustedAction, GoalOutcome, GoalVerification,
};
use crate::text::{
    chars_eq, chars_of, contains_chars, contains_seq, decimal, decimal_spec, str_eq,
    trim_end_len, trim_spec, trim_start_index, trim_end_spec, trim_start_spec,
};
use crate::types::{contents_view, messages_view, AgentMessage, Content, ContentView, MessageView};

verus! {

/// The numbered list of the criteria: `"{n}. [{id}] {description}\n"` each.
pub open spec fn numbered_criteria(c: Seq<GoalCriterion>) -> Seq<char>
    decreases c.len(),
{
    if c.len() == 0 {
        Seq::empty()
    } else {
        numbered_criteria(c.drop_last()) + decimal_spec(c.len()) + ". ["@ + c.last().id@ + "] "@
            + c.last().description@ + "\n"@
    }
}

/// The checklist the model is to end with: one marker line per criterion.
pub open spec fn checklist(c: Seq<GoalCriterion>) -> Seq<char>
    decreases c.len(),
{
    if c.len() == 0 {
        Seq::empty()
    } else {
        checklist(c.drop_last()) + "[CRITERION_RESULT: "@ + c.last().id@ + ": PASS|FAIL]\n"@
    }
}

/// The first prompt of a goal: the task, the numbered criteria and the
/// checklist to end with.
pub open spec fn initial_goal_prompt_spec(task: Seq<char>, c: Seq<GoalCriterion>) -> Seq<char> {
    "## Task\n\n"@ + task + "\n\n## Acceptance Criteria\n"@
        + "You must satisfy ALL of the following before responding:\n\n"@ + numbered_criteria(c)
        + "\nAfter completing the task, end your response with a criteria checklist:\n\n"@
        + checklist(c)
}

fn push_str(s: &mut String, t: &str)
    ensures
        final(s)@ == old(s)@ + t@,
{
    s.append(t);
}

/// The first prompt of a goal.
pub fn build_initial_goal_prompt(task: &str, criteria: &Vec<GoalCriterion>) -> (r: String)
    requires
        criteria@.len() < u64::MAX,
    ensures
        r@ == initial_goal_prompt_spec(task@, criteria@),
{
    let mut p = "## Task\n\n".to_owned();
    push_str(&mut p, task);
    push_str(&mut p, "\n\n## Acceptance Criteria\n");
    push_str(&mut p, "You must satisfy ALL of the following before responding:\n\n");
    let ghost head = p@;
    for i in 0..criteria.len()
        invariant
            criteria@.len() < u64::MAX,
            p@ == head + numbered_criteria(criteria@.take(i as int)),
    {
        proof {
            assert(criteria@.take(i + 1).drop_last() =~= criteria@.take(i as int));
        }
        let n = decimal((i + 1) as u64);
        push_str(&mut p, n.as_str());
        push_str(&mut p, ". [");
        push_str(&mut p, criteria[i].id.as_str());
        push_str(&mut p, "] ");
        push_str(&mut p, criteria[i].description.as_str());
        push_str(&mut p, "\n");
        proof {
            assert(p@ =~= head + numbered_criteria(criteria@.take(i + 1)));
        }
    }
    proof {
        assert(criteria@.take(criteria@.len() as int) =~= criteria@);
    }
    push_str(&mut p, "\nAfter completing the task, end your response with a criteria checklist:\n\n");
    let ghost head2 = p@;
    for i in 0..criteria.len()
        invariant
            p@ == head2 + checklist(criteria@.take(i as int)),
    {
        proof {
            assert(criteria@.take(i + 1).drop_last() =~= criteria@.take(i as int));
        }
        push_str(&mut p, "[CRITERION_RESULT: ");
        push_str(&mut p, criteria[i].id.as_str());
        push_str(&mut p, ": PASS|FAIL]\n");
        proof {
            assert(p@ =~= head2 + checklist(criteria@.take(i + 1)));
        }
    }
    proof {
        assert(criteria@.take(criteria@.len() as int) =~= criteria@);
    }
    p
}

/// The description of the first criterion with the given id, or the id itself.
pub open spec fn description_of(c: Seq<GoalCriterion>, id: Seq<char>) -> Seq<char>
    decreases c.len(),
{
    if c.len() == 0 {
        id
    } else if c[0].id@ == id {
        c[0].description@
    } else {
        description_of(c.drop_first(), id)
    }
}

/// One line per evaluated criterion: a mark, the id and its description.
pub open spec fn evaluation_lines(c: Seq<GoalCriterion>, results: Seq<(String, bool)>) -> Seq<char>
    decreases results.len(),
{
    if results.len() == 0 {
        Seq::empty()
    } else {
        let (id, passed) = results.last();
        evaluation_lines(c, results.drop_last()) + (if passed {
            "✓"@
        } else {
            "✗"@
        }) + " "@ + id@ + " — "@ + description_of(c, id@) + "\n"@
    }
}

/// A retry prompt: the attempt, how the last response fared against each
/// criterion, and the original task.
pub open spec fn retry_prompt_spec(
    task: Seq<char>,
    c: Seq<GoalCriterion>,
    attempt: u32,
    max_attempts: u32,
    last_eval: Option<CriteriaEvaluation>,
) -> Seq<char> {
    "## Acceptance Criteria Check (attempt "@ + decimal_spec((attempt + 1) as nat) + "/"@ + decimal_spec(
        max_attempts as nat,
    ) + ")\n\n"@ + "The previous response did not meet all criteria:\n\n"@ + (match last_eval {
        Some(e) => evaluation_lines(c, e.results@),
        None => Seq::empty(),
    }) + "\n## Original Task\n\n"@ + task + "\n\n"@
        + "Please fix the failing criteria and respond with the corrected implementation.\n"@
        + "End with [CRITERION_RESULT: ...] as before.\n"@
}

fn describe(criteria: &Vec<GoalCriterion>, id: &String) -> (r: String)
    ensures
        r@ == description_of(criteria@, id@),
{
    let mut i: usize = 0;
    proof {
        assert(criteria@.skip(0) =~= criteria@);
    }
    while i < criteria.len()
        invariant
            i <= criteria@.len(),
            description_of(criteria@, id@) == description_of(criteria@.skip(i as int), id@),
        decreases criteria@.len() - i,
    {
        proof {
            assert(criteria@.skip(i as int).drop_first() =~= criteria@.skip(i + 1));
        }
        if str_eq(criteria[i].id.as_str(), id.as_str()) {
            return criteria[i].description.clone();
        }
        i = i + 1;
    }
    proof {
        assert(criteria@.skip(i as int) =~= Seq::<GoalCriterion>::empty());
    }
    id.clone()
}

/// A retry prompt of a goal.
pub fn build_retry_prompt(
    task: &str,
    criteria: &Vec<GoalCriterion>,
    attempt: u32,
    max_attempts: u32,
    last_eval: Option<&CriteriaEvaluation>,
) -> (r: String)
    ensures
        r@ == retry_prompt_spec(
            task@,
            criteria@,
            attempt,
            max_attempts,
            match last_eval {
                Some(e) => Some(*e),
                None => None,
            },
        ),
{
    let mut p = "## Acceptance Criteria Check (attempt ".to_owned();
    let a = decimal(attempt as u64 + 1);
    push_str(&mut p, a.as_str());
    push_str(&mut p, "/");
    let m = decimal(max_attempts as u64);
    push_str(&mut p, m.as_str());
    push_str(&mut p, ")\n\n");
    push_str(&mut p, "The previous response did not meet all criteria:\n\n");
    let ghost head = p@;
    if let Some(eval) = last_eval {
        for i in 0..eval.results.len()
            invariant
                p@ == head + evaluation_lines(criteria@, eval.results@.take(i as int)),
        {
            proof {
                assert(eval.results@.take(i + 1).drop_last() =~= eval.results@.take(i as int));
            }
            let passed = eval.results[i].1;
            if passed {
                push_str(&mut p, "✓");
            } else {
                push_str(&mut p, "✗");
            }
            push_str(&mut p, " ");
            push_str(&mut p, eval.results[i].0.as_str());
            push_str(&mut p, " — ");
            let d = describe(criteria, &eval.results[i].0);
            push_str(&mut p, d.as_str());
            push_str(&mut p, "\n");
            proof {
                assert(p@ =~= head + evaluation_lines(criteria@, eval.results@.take(i + 1)));
            }
        }
        proof {
            assert(eval.results@.take(eval.results@.len() as int) =~= eval.results@);
        }
    } else {
        proof {
            assert(p@ =~= head + Seq::<char>::empty());
        }
    }
    push_str(&mut p, "\n## Original Task\n\n");
    push_str(&mut p, task);
    push_str(&mut p, "\n\n");
    push_str(&mut p, "Please fix the failing criteria and respond with the corrected implementation.\n");
    push_str(&mut p, "End with [CRITERION_RESULT: ...] as before.\n");
    p
}

/// A line without its trailing carriage return, where it has one.
pub open spec fn strip_cr(l: Seq<char>) -> Seq<char> {
    if l.len() > 0 && l.last() == '\r' {
        l.drop_last()
    } else {
        l
    }
}

/// Position of the first line feed in `s`, if any.
pub open spec fn first_newline(s: Seq<char>) -> Option<int> {
    if exists|i: int| 0 <= i < s.len() && s[i] == '\n' {
        Some(choose|i: int| 0 <= i < s.len() && s[i] == '\n' && forall|j: int| 0 <= j < i ==> s[j] != '\n')
    } else {
        None
    }
}

/// The lines of `s` as `str::lines` yields them: split at line feeds, a
/// carriage return before a line feed dropped, no line after a final line feed.
pub open spec fn lines_spec(s: Seq<char>) -> Seq<Seq<char>>
    decreases s.len(),
{
    if s.len() == 0 {
        Seq::empty()
    } else {
        match first_newline(s) {
            Some(i) => if 0 <= i < s.len() {
                seq![strip_cr(s.take(i))] + lines_spec(s.skip(i + 1))
            } else {
                Seq::empty()
            },
            None => seq![s],
        }
    }
}

/// `s` without its trailing closing brackets.
pub open spec fn strip_closing(s: Seq<char>) -> Seq<char>
    decreases s.len(),
{
    if s.len() > 0 && s.last() == ']' {
        strip_closing(s.drop_last())
    } else {
        s
    }
}

/// The marker that opens the checklist line of a criterion.
pub open spec fn criterion_marker(id: Seq<char>) -> Seq<char> {
    "[CRITERION_RESULT: "@ + id + ":"@
}

/// The verdict a marker line states.
pub open spec fn verdict(v: Seq<char>) -> Option<bool> {
    if v == "PASS"@ {
        Some(true)
    } else if v == "FAIL"@ {
        Some(false)
    } else {
        None
    }
}

/// The verdict of the first line that starts (once trimmed) with the marker.
pub open spec fn verdict_of_lines(ls: Seq<Seq<char>>, marker: Seq<char>) -> Option<bool>
    decreases ls.len(),
{
    if ls.len() == 0 {
        None
    } else {
        let t = trim_spec(ls[0]);
        if marker.len() <= t.len() && t.take(marker.len() as int) == marker {
            verdict(trim_spec(strip_closing(t.skip(marker.len() as int))))
        } else {
            verdict_of_lines(ls.drop_first(), marker)
        }
    }
}

/// The verdict the text states for criterion `id`: the first line carrying
/// its marker decides, by `PASS` or `FAIL` (anything else decides nothing).
pub open spec fn criterion_result_spec(text: Seq<char>, id: Seq<char>) -> Option<bool> {
    verdict_of_lines(lines_spec(text), criterion_marker(id))
}

fn sub_chars(v: &Vec<char>, from: usize, to: usize) -> (r: Vec<char>)
    requires
        from <= to <= v@.len(),
    ensures
        r@ == v@.subrange(from as int, to as int),
{
    let mut r: Vec<char> = Vec::new();
    let mut i = from;
    while i < to
        invariant
            from <= i <= to <= v@.len(),
            r@ == v@.subrange(from as int, i as int),
        decreases to - i,
    {
        r.push(v[i]);
        proof {
            assert(r@ =~= v@.subrange(from as int, i + 1));
        }
        i = i + 1;
    }
    r
}

fn trim_chars(v: &Vec<char>) -> (r: Vec<char>)
    ensures
        r@ == trim_spec(v@),
{
    let k = trim_end_len(v);
    let w = sub_chars(v, 0, k);
    proof {
        assert(w@ =~= v@.take(k as int));
    }
    let j = trim_start_index(&w);
    let r = sub_chars(&w, j, w.len());
    proof {
        assert(r@ =~= w@.skip(j as int));
    }
    r
}

fn strip_closing_chars(v: &Vec<char>) -> (r: Vec<char>)
    ensures
        r@ == strip_closing(v@),
{
    let mut k = v.len();
    proof {
        assert(v@.take(k as int) =~= v@);
    }
    while k > 0 && v[k - 1] == ']'
        invariant
            k <= v@.len(),
            strip_closing(v@.take(k as int)) == strip_closing(v@),
        decreases k,
    {
        proof {
            assert(v@.take(k as int).drop_last() =~= v@.take(k - 1));
        }
        k = k - 1;
    }
    let r = sub_chars(v, 0, k);
    proof {
        assert(r@ =~= v@.take(k as int));
    }
    r
}

proof fn lemma_lines_step(s: Seq<char>, i: int)
    requires
        0 <= i < s.len(),
        s[i] == '\n',
        forall|j: int| 0 <= j < i ==> s[j] != '\n',
    ensures
        lines_spec(s) == seq![strip_cr(s.take(i))] + lines_spec(s.skip(i + 1)),
{
    reveal(lines_spec);
    assert(exists|k: int| 0 <= k < s.len() && s[k] == '\n');
    let f = choose|f: int| 0 <= f < s.len() && s[f] == '\n' && forall|j: int| 0 <= j < f ==> s[j] != '\n';
    assert(f == i) by {
        if f < i {
        } else if f > i {
        }
    }
}

proof fn lemma_lines_last(s: Seq<char>)
    requires
        s.len() > 0,
        forall|j: int| 0 <= j < s.len() ==> s[j] != '\n',
    ensures
        lines_spec(s) == seq![s],
{
    reveal(lines_spec);
}

proof fn lemma_lines_empty(s: Seq<char>)
    requires
        s.len() == 0,
    ensures
        lines_spec(s) == Seq::<Seq<char>>::empty(),
{
    reveal(lines_spec);
}

/// Abstract value of a list of lines.
pub open spec fn lines_view(v: Seq<Vec<char>>) -> Seq<Seq<char>> {
    v.map_values(|l: Vec<char>| l@)
}

fn line_end(text: &Vec<char>, start: usize) -> (i: usize)
    requires
        start <= text@.len(),
    ensures
        start <= i <= text@.len(),
        forall|j: int| start <= j < i ==> text@[j] != '\n',
        i < text@.len() ==> text@[i as int] == '\n',
{
    let mut i = start;
    while i < text.len() && text[i] != '\n'
        invariant
            start <= i <= text@.len(),
            forall|j: int| start <= j < i ==> text@[j] != '\n',
        decreases text@.len() - i,
    {
        i = i + 1;
    }
    i
}

/// The line starting at `start` and the position after it.
fn next_line(text: &Vec<char>, start: usize) -> (r: (Vec<char>, usize))
    requires
        start < text@.len(),
    ensures
        start < r.1 <= text@.len(),
        lines_spec(text@.skip(start as int)) == seq![r.0@] + lines_spec(text@.skip(r.1 as int)),
{
    let ghost s = text@.skip(start as int);
    let i = line_end(text, start);
    let mut end = i;
    if i < text.len() && end > start && text[end - 1] == '\r' {
        end = end - 1;
    }
    let line = sub_chars(text, start, end);
    proof {
        assert forall|j: int| 0 <= j < i - start implies s[j] != '\n' by {
            assert(s[j] == text@[start + j]);
        }
    }
    if i < text.len() {
        proof {
            assert(s[i - start] == text@[i as int]);
            lemma_lines_step(s, i - start);
            assert(s.take(i - start) =~= text@.subrange(start as int, i as int));
            assert(line@ =~= strip_cr(s.take(i - start)));
            assert(s.skip(i - start + 1) =~= text@.skip(i + 1));
        }
        (line, i + 1)
    } else {
        proof {
            lemma_lines_last(s);
            assert(line@ =~= s);
            assert(text@.skip(i as int) =~= Seq::<char>::empty());
            lemma_lines_empty(text@.skip(i as int));
            assert(seq![line@] + Seq::<Seq<char>>::empty() =~= seq![line@]);
        }
        (line, i)
    }
}

proof fn lemma_lines_view_push(v: Seq<Vec<char>>, x: Vec<char>)
    ensures
        lines_view(v.push(x)) == lines_view(v).push(x@),
{
    assert(lines_view(v.push(x)) =~= lines_view(v).push(x@));
}

proof fn lemma_concat_step(before: Seq<Seq<char>>, x: Seq<char>, rest: Seq<Seq<char>>)
    ensures
        before + (seq![x] + rest) == before.push(x) + rest,
{
    assert(before + (seq![x] + rest) =~= before.push(x) + rest);
}

fn lines_of(text: &Vec<char>) -> (r: Vec<Vec<char>>)
    ensures
        lines_view(r@) == lines_spec(text@),
{
    let mut r: Vec<Vec<char>> = Vec::new();
    let mut start: usize = 0;
    let n = text.len();
    proof {
        assert(text@.skip(0) =~= text@);
        assert(lines_view(r@) + lines_spec(text@) =~= lines_spec(text@));
    }
    while start < n
        invariant
            n == text@.len(),
            start <= n,
            lines_view(r@) + lines_spec(text@.skip(start as int)) == lines_spec(text@),
        decreases n - start,
    {
        let ghost old_r = r@;
        let (line, next) = next_line(text, start);
        let ghost lv = line@;
        r.push(line);
        proof {
            lemma_lines_view_push(old_r, r@.last());
            lemma_concat_step(lines_view(old_r), lv, lines_spec(text@.skip(next as int)));
        }
        start = next;
    }
    proof {
        assert(text@.skip(start as int) =~= Seq::<char>::empty());
        lemma_lines_empty(text@.skip(start as int));
        assert(lines_view(r@) =~= lines_view(r@) + lines_spec(text@.skip(start as int)));
    }
    r
}

/// The verdict the text states for criterion `id`, from the line
/// `[CRITERION_RESULT: {id}: PASS]` or `... FAIL]`.
pub fn parse_criterion_result(text: &str, id: &str) -> (r: Option<bool>)
    ensures
        r == criterion_result_spec(text@, id@),
{
    let marker_s = "[CRITERION_RESULT: ".to_owned().concat(id).concat(":");
    let marker = chars_of(marker_s.as_str());
    let tc = chars_of(text);
    let lines = lines_of(&tc);
    let ghost ls = lines_view(lines@);
    let pass = chars_of("PASS");
    let fail = chars_of("FAIL");
    let mut k: usize = 0;
    proof {
        assert(ls.skip(0) =~= ls);
    }
    while k < lines.len()
        invariant
            k <= lines@.len(),
            ls == lines_view(lines@),
            ls == lines_spec(text@),
            marker@ == criterion_marker(id@),
            pass@ == "PASS"@,
            fail@ == "FAIL"@,
            verdict_of_lines(ls, marker@) == verdict_of_lines(ls.skip(k as int), marker@),
        decreases lines@.len() - k,
    {
        proof {
            assert(ls.skip(k as int).drop_first() =~= ls.skip(k + 1));
            assert(ls.skip(k as int)[0] == lines@[k as int]@);
        }
        let t = trim_chars(&lines[k]);
        if marker.len() <= t.len() {
            let head = sub_chars(&t, 0, marker.len());
            if chars_eq(&head, &marker) {
                proof {
                    assert(head@ =~= t@.take(marker@.len() as int));
                }
                let rest = sub_chars(&t, marker.len(), t.len());
                proof {
                    assert(rest@ =~= t@.skip(marker@.len() as int));
                }
                let stripped = strip_closing_chars(&rest);
                let v = trim_chars(&stripped);
                if chars_eq(&v, &pass) {
                    return Some(true);
                } else if chars_eq(&v, &fail) {
                    return Some(false);
                } else {
                    return None;
                }
            } else {
                proof {
                    assert(t@.take(marker@.len() as int) =~= head@);
                }
            }
        }
        k = k + 1;
    }
    proof {
        assert(ls.skip(k as int) =~= Seq::<Seq<char>>::empty());
    }
    None
}

/// The text blocks of a message's content, concatenated.
pub open spec fn concat_text(c: Seq<ContentView>) -> Seq<char>
    decreases c.len(),
{
    if c.len() == 0 {
        Seq::empty()
    } else {
        concat_text(c.drop_last()) + match c.last() {
            ContentView::Text { text } => text,
            _ => Seq::empty(),
        }
    }
}

/// The text of the last assistant message (empty if there is none).
pub open spec fn last_assistant_text(m: Seq<MessageView>) -> Seq<char>
    decreases m.len(),
{
    if m.len() == 0 {
        Seq::empty()
    } else {
        match m.last() {
            MessageView::Assistant { content, .. } => concat_text(content),
            _ => last_assistant_text(m.drop_last()),
        }
    }
}

/// Whether a criterion passes on the response text: a self-assessment by its
/// `PASS` marker, an output check by containment; commands are not run here
/// and do not pass.
pub open spec fn criterion_passes(c: GoalCriterion, text: Seq<char>) -> bool {
    match c.verification {
        GoalVerification::SelfAssessment => criterion_result_spec(text, c.id@) == Some(true),
        GoalVerification::Command { .. } => false,
        GoalVerification::OutputContains { text: t } => contains_seq(text, t@),
    }
}

fn content_text(content: &Vec<Content>) -> (r: String)
    ensures
        r@ == concat_text(contents_view(content@)),
{
    let mut r = String::new();
    for i in 0..content.len()
        invariant
            r@ == concat_text(contents_view(content@).take(i as int)),
    {
        proof {
            assert(contents_view(content@).take(i + 1).drop_last() =~= contents_view(
                content@,
            ).take(i as int));
        }
        match &content[i] {
            Content::Text { text } => {
                push_str(&mut r, text.as_str());
            },
            _ => {
                proof {
                    assert(r@ =~= r@ + Seq::<char>::empty());
                }
            },
        }
    }
    proof {
        assert(contents_view(content@).take(content@.len() as int) =~= contents_view(content@));
    }
    r
}

fn assistant_text_of(messages: &Vec<AgentMessage>) -> (r: String)
    ensures
        r@ == last_assistant_text(messages_view(messages@)),
{
    let mut i = messages.len();
    proof {
        assert(messages_view(messages@).take(i as int) =~= messages_view(messages@));
    }
    while i > 0
        invariant
            i <= messages@.len(),
            last_assistant_text(messages_view(messages@)) == last_assistant_text(
                messages_view(messages@).take(i as int),
            ),
        decreases i,
    {
        proof {
            assert(messages_view(messages@).take(i as int).drop_last() =~= messages_view(
                messages@,
            ).take(i - 1));
        }
        match &messages[i - 1] {
            AgentMessage::Assistant(a) => {
                return content_text(&a.content);
            },
            _ => {},
        }
        i = i - 1;
    }
    String::new()
}

/// The evaluation of a response against the criteria, in order.
pub open spec fn evaluation_spec(m: Seq<MessageView>, c: Seq<GoalCriterion>) -> Seq<(Seq<char>, bool)> {
    c.map_values(|g: GoalCriterion| (g.id@, criterion_passes(g, last_assistant_text(m))))
}

/// Evaluates every criterion against the text of the last assistant message.
pub fn evaluate_criteria(messages: &Vec<AgentMessage>, criteria: &Vec<GoalCriterion>) -> (r:
    CriteriaEvaluation)
    ensures
        r.results@.map_values(|p: (String, bool)| (p.0@, p.1)) == evaluation_spec(
            messages_view(messages@),
            criteria@,
        ),
{
    let text = assistant_text_of(messages);
    let tc = chars_of(text.as_str());
    let mut results: Vec<(String, bool)> = Vec::new();
    for i in 0..criteria.len()
        invariant
            text@ == last_assistant_text(messages_view(messages@)),
            tc@ == text@,
            results@.len() == i,
            forall|k: int|
                0 <= k < i ==> (#[trigger] results@[k]).0@ == criteria@[k].id@ && results@[k].1
                    == criterion_passes(criteria@[k], text@),
    {
        let c = &criteria[i];
        let passed = match &c.verification {
            GoalVerification::SelfAssessment => match parse_criterion_result(
                text.as_str(),
                c.id.as_str(),
            ) {
                Some(b) => b,
                None => false,
            },
            GoalVerification::Command { .. } => false,
            GoalVerification::OutputContains { text: t } => {
                let needle = chars_of(t.as_str());
                contains_chars(&tc, &needle)
            },
        };
        results.push((c.id.clone(), passed));
    }
    proof {
        assert(results@.map_values(|p: (String, bool)| (p.0@, p.1)) =~= evaluation_spec(
            messages_view(messages@),
            criteria@,
        ));
    }
    CriteriaEvaluation { results }
}

/// The attempts of one goal-driven prompt.
#[derive(Debug)]
pub struct GoalRun {
    pub task: String,
    pub criteria: Vec<GoalCriterion>,
    /// Maximum attempts including the first run.
    pub max_attempts: u32,
    pub on_exhausted: GoalExhaustedAction,
    /// Attempts made so far.
    pub attempt: u32,
    /// The evaluation of the last failed attempt.
    pub last_eval: Option<CriteriaEvaluation>,
}

/// The ids of the criteria, in order.
pub open spec fn criteria_ids(c: Seq<GoalCriterion>) -> Seq<Seq<char>> {
    c.map_values(|g: GoalCriterion| g.id@)
}

impl GoalRun {
    /// A goal run before its first attempt.
    pub fn new(
        task: String,
        criteria: Vec<GoalCriterion>,
        max_attempts: u32,
        on_exhausted: GoalExhaustedAction,
    ) -> (r: Self)
        ensures
            r.task == task,
            r.criteria == criteria,
            r.max_attempts == max_attempts,
            r.on_exhausted == on_exhausted,
            r.attempt == 0,
            r.last_eval is None,
    {
        GoalRun { task, criteria, max_attempts, on_exhausted, attempt: 0, last_eval: None }
    }

    /// The prompt of the next attempt: the initial goal prompt first, a retry
    /// prompt after a failed evaluation; `None` once the attempts are spent.
    pub fn next_prompt(&self) -> (r: Option<String>)
        requires
            self.criteria@.len() < u64::MAX,
        ensures
            r matches Some(p) ==> self.attempt < self.max_attempts && p@ == (if self.attempt == 0 {
                initial_goal_prompt_spec(self.task@, self.criteria@)
            } else {
                retry_prompt_spec(
                    self.task@,
                    self.criteria@,
                    self.attempt,
                    self.max_attempts,
                    self.last_eval,
                )
            }),
            r is None <==> self.attempt >= self.max_attempts,
    {
        if self.attempt >= self.max_attempts {
            return None;
        }
        if self.attempt == 0 {
            Some(build_initial_goal_prompt(self.task.as_str(), &self.criteria))
        } else {
            let last = match &self.last_eval {
                Some(e) => Some(e),
                None => None,
            };
            Some(
                build_retry_prompt(
                    self.task.as_str(),
                    &self.criteria,
                    self.attempt,
                    self.max_attempts,
                    last,
                ),
            )
        }
    }

    /// Takes in the messages of an attempt: when every criterion passes the
    /// goal is met; otherwise the evaluation is kept for the retry prompt and
    /// the attempt counted.
    pub fn on_response(&mut self, messages: Vec<AgentMessage>) -> (r: Option<GoalOutcome>)
        requires
            old(self).attempt < old(self).max_attempts,
        ensures
            final(self).task == old(self).task,
            final(self).criteria == old(self).criteria,
            final(self).max_attempts == old(self).max_attempts,
            final(self).on_exhausted == old(self).on_exhausted,
            final(self).attempt == old(self).attempt + 1,
            ({
                let ev = evaluation_spec(messages_view(messages@), old(self).criteria@);
                let passed = forall|i: int| 0 <= i < ev.len() ==> #[trigger] ev[i].1;
                &&& passed ==> (r matches Some(GoalOutcome::Passed { messages: m, attempts })
                    && messages_view(m@) == messages_view(messages@) && attempts == old(self).attempt
                    + 1)
                &&& !passed ==> r is None
                &&& !passed ==> (final(self).last_eval matches Some(e) && e.results@.map_values(
                    |p: (String, bool)| (p.0@, p.1),
                ) == ev)
            }),
    {
        let eval = evaluate_criteria(&messages, &self.criteria);
        let passed = eval.all_passed();
        let ghost ev = evaluation_spec(messages_view(messages@), self.criteria@);
        proof {
            assert forall|i: int| 0 <= i < eval.results@.len() implies (#[trigger] eval.results@[i]).1
                == ev[i].1 by {
                assert(eval.results@.map_values(|p: (String, bool)| (p.0@, p.1))[i] == ev[i]);
            }
        }
        self.attempt = self.attempt + 1;
        if passed {
            Some(GoalOutcome::Passed { messages, attempts: self.attempt })
        } else {
            self.last_eval = Some(eval);
            None
        }
    }

    /// What spent attempts lead to: with `Abort`, the error naming the
    /// criteria; with `ReturnLast`, the original task to run once more.
    pub fn on_exhausted(&self) -> (r: Result<String, AgentError>)
        ensures
            self.on_exhausted is Abort ==> (r matches Err(e) && e@ == (AgentErrorView::GoalNotMet {
                criteria: criteria_ids(self.criteria@),
                attempts: self.max_attempts,
            })),
            self.on_exhausted is ReturnLast ==> (r matches Ok(t) && t@ == self.task@),
    {
        match self.on_exhausted {
            GoalExhaustedAction::Abort => {
                let mut ids: Vec<String> = Vec::new();
                for i in 0..self.criteria.len()
                    invariant
                        ids@.len() == i,
                        forall|k: int| 0 <= k < i ==> #[trigger] ids@[k]@ == self.criteria@[k].id@,
                {
                    ids.push(self.criteria[i].id.clone());
                }
                proof {
                    assert(strings_view(ids@) =~= criteria_ids(self.criteria@));
                }
                Err(AgentError::GoalNotMet { criteria: ids, attempts: self.max_attempts })
            },
            GoalExhaustedAction::ReturnLast => Ok(self.task.clone()),
        }
    }

    /// The outcome of the final, unverified run after the attempts were spent.
    pub fn exhausted_outcome(&self, messages: Vec<AgentMessage>) -> (r: GoalOutcome)
        ensures
            r matches GoalOutcome::Exhausted { messages: m, attempts } && m == messages && attempts
                == self.max_attempts,
    {
        GoalOutcome::Exhausted { messages, attempts: self.max_attempts }
    }
}

} // verus!
