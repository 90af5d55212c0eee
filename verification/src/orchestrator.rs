//! Orchestrator prompt building and response reading.
//!
//! [`PromptBuilder`] turns a [`ContextBundle`] into the system and user
//! messages for the brain model; [`ResponseParser`] reads the model's reply
//! into action proposals, turning anything unreadable into an escalation.
use vstd::prelude::*;
use crate::json::{field_of, get_field, take_field, JsonValue};
use crate::text::{lemma_views_push, chars_eq, chars_of, decimal, decimal_chars, is_ws, join, join_chars, push_all, push_str, string_from_chars, string_views, trim, trim_chars};

verus! {

/// Summary of one completed (or in-flight) sub-task.
#[derive(Debug)]
pub struct TaskSummary {
    pub task_id: String,
    /// Optional short description of what the task was supposed to do.
    pub description: Option<String>,
    /// Terminal or current state (e.g. "completed", "failed", "leased").
    pub state: String,
    /// Result text returned by the worker, if any.
    pub result: Option<String>,
}

/// All context the orchestrator needs to decide its next move.
#[derive(Debug)]
pub struct ContextBundle {
    pub run_id: String,
    pub session_id: String,
    pub goal: String,
    pub task_history: Vec<TaskSummary>,
    /// Tool IDs visible to this run.  Empty = all tools permitted.
    pub available_tools: Vec<String>,
    pub memory_snippets: Vec<String>,
    /// IDs of approvals currently awaiting a decision.
    pub pending_approvals: Vec<String>,
    /// Agent role attached to this run, if any.
    pub agent_role: Option<String>,
    /// How many times the orchestrator loop has run for this run so far.
    pub iteration: u32,
}

/// A chat message (role and content) for the brain model.
#[derive(Debug)]
pub struct ChatMessage {
    pub role: String,
    pub content: String,
}

/// The system prompt after the role hint.
pub const SYSTEM_PROMPT_TAIL: &'static str = " \u{2014} an autonomous agent that takes action to achieve goals. Work through the task step by step: understand what is needed, use tools to gather context and take action, verify the result, then complete.\n\n## Workflow\n1. **Understand** \u{2014} Read the goal and run state. Gather context with available tools.\n2. **Act** \u{2014} Take concrete steps: invoke tools, spawn sub-agents for parallel work, store knowledge.\n3. **Verify** \u{2014} Check that your actions achieved the goal.\n4. **Complete** \u{2014} Call complete_run with a summary of what was accomplished. Only complete after taking action and verifying.\n\n## Response format\nRespond ONLY with a JSON array of action objects. Each object must have:\n- \"action_type\": one of \"spawn_subagent\" | \"invoke_tool\" | \"create_memory\" | \"send_notification\" | \"complete_run\" | \"escalate_to_operator\"\n- \"description\": short explanation of why you chose this action\n- \"confidence\": float 0.0\u{2013}1.0\n- \"requires_approval\": true only for writes or destructive actions\n- \"tool_name\" (optional): tool ID or sub-agent role\n- \"tool_args\" (optional): JSON arguments\n\nField conventions:\n- spawn_subagent: tool_name = role, tool_args = {\"goal\": \"...\"}\n- invoke_tool:    tool_name = tool ID, tool_args = {...}\n- create_memory:  tool_args = {\"content\": \"...\", \"source\": \"...\"}\n- send_notification: tool_args = {\"to\": \"...\", \"message\": \"...\"}\n- complete_run:   description = summary of what was accomplished\n- escalate_to_operator: description = why, requires_approval = true\n\nReturn only the JSON array \u{2014} no prose, no markdown fences.";

/// Text of the system prompt for a role hint.
pub open spec fn system_prompt_text(role: Seq<char>) -> Seq<char> {
    "You are a cairn "@ + role + SYSTEM_PROMPT_TAIL@
}

pub open spec fn opt_or(o: Option<String>, d: Seq<char>) -> Seq<char> {
    match o {
        Some(s) => s@,
        None => d,
    }
}

/// One line of the task history section.
pub open spec fn task_line(t: TaskSummary) -> Seq<char> {
    "- ["@ + t.state@ + "] "@ + t.task_id@ + " | "@ + opt_or(t.description, "(no description)"@)
        + " | result: "@ + opt_or(t.result, "\u{2014}"@)
}

/// One numbered line of the knowledge section (number `k + 1`).
pub open spec fn snippet_line(k: int, s: Seq<char>) -> Seq<char> {
    "["@ + decimal((k + 1) as nat) + "] "@ + s
}

/// The sections of the user message, in order.
pub open spec fn user_sections(ctx: ContextBundle) -> Seq<Seq<char>> {
    let goal = seq!["## Goal\n"@ + ctx.goal@];
    let run = seq![
        "## Run state\nrun_id: "@ + ctx.run_id@ + "\nsession_id: "@ + ctx.session_id@ + "\niteration: "@
            + decimal(ctx.iteration as nat),
    ];
    let hist = if ctx.task_history@.len() > 0 {
        seq![
            "## Task history\n"@ + join(
                Seq::new(ctx.task_history@.len(), |k: int| task_line(ctx.task_history@[k])),
                "\n"@,
            ),
        ]
    } else {
        Seq::empty()
    };
    let tools = if ctx.available_tools@.len() > 0 {
        seq!["## Available tools\n"@ + join(string_views(ctx.available_tools@), ", "@)]
    } else {
        Seq::empty()
    };
    let knowledge = if ctx.memory_snippets@.len() > 0 {
        seq![
            "## Relevant knowledge\n"@ + join(
                Seq::new(ctx.memory_snippets@.len(), |k: int| snippet_line(k, ctx.memory_snippets@[k]@)),
                "\n"@,
            ),
        ]
    } else {
        Seq::empty()
    };
    let approvals = if ctx.pending_approvals@.len() > 0 {
        seq![
            "## Pending approvals\n"@ + decimal(ctx.pending_approvals@.len()) + " approval(s) awaiting decision: "@
                + join(string_views(ctx.pending_approvals@), ", "@),
        ]
    } else {
        Seq::empty()
    };
    let close = seq!["## What should happen next?\nReturn a JSON action array."@];
    goal + run + hist + tools + knowledge + approvals + close
}

/// Text of the user message.
pub open spec fn user_message_text(ctx: ContextBundle) -> Seq<char> {
    join(user_sections(ctx), "\n\n"@)
}

fn opt_chars(o: &Option<String>, d: &str) -> (r: Vec<char>)
    ensures
        r@ == opt_or(*o, d@),
{
    match o {
        Some(s) => chars_of(s.as_str()),
        None => chars_of(d),
    }
}

fn string_chars(v: &Vec<String>) -> (r: Vec<Vec<char>>)
    ensures
        r@.map_values(|p: Vec<char>| p@) == string_views(v@),
{
    let mut r: Vec<Vec<char>> = Vec::new();
    let mut i: usize = 0;
    while i < v.len()
        invariant
            i <= v@.len(),
            r@.map_values(|p: Vec<char>| p@) == string_views(v@).take(i as int),
        decreases v@.len() - i,
    {
        let ghost old_r = r@;
        let c = chars_of(v[i].as_str());
        r.push(c);
        proof {
            lemma_views_push(old_r, r@.last());
            assert(old_r.push(r@.last()) == r@);
            assert(string_views(v@).take(i + 1) =~= string_views(v@).take(i as int).push(v@[i as int]@));
        }
        i = i + 1;
    }
    assert(string_views(v@).take(v@.len() as int) =~= string_views(v@));
    r
}

/// Builds the prompt messages for the brain model.
pub struct PromptBuilder;

impl PromptBuilder {
    /// The system message followed by the user message.
    pub fn build(ctx: &ContextBundle) -> (r: Vec<ChatMessage>)
        ensures
            r@.len() == 2,
            r@[0].role@ == "system"@,
            r@[0].content@ == system_prompt_text(opt_or(ctx.agent_role, "orchestrator"@)),
            r@[1].role@ == "user"@,
            r@[1].content@ == user_message_text(*ctx),
    {
        let system = Self::system_prompt(ctx);
        let user = Self::user_message(ctx);
        let mut r: Vec<ChatMessage> = Vec::new();
        r.push(ChatMessage { role: "system".to_owned(), content: system });
        r.push(ChatMessage { role: "user".to_owned(), content: user });
        r
    }

    /// The system prompt: the orchestrator persona for the run's role
    /// (`"orchestrator"` by default) and the response format.
    pub fn system_prompt(ctx: &ContextBundle) -> (r: String)
        ensures
            r@ == system_prompt_text(opt_or(ctx.agent_role, "orchestrator"@)),
    {
        let mut out: Vec<char> = Vec::new();
        push_str(&mut out, "You are a cairn ");
        let role = opt_chars(&ctx.agent_role, "orchestrator");
        push_all(&mut out, role.as_slice());
        push_str(&mut out, SYSTEM_PROMPT_TAIL);
        string_from_chars(out.as_slice())
    }

    /// The user message: goal, run state, and the sections that have content.
    pub fn user_message(ctx: &ContextBundle) -> (r: String)
        ensures
            r@ == user_message_text(*ctx),
    {
        let mut parts: Vec<Vec<char>> = Vec::new();
        let mut goal: Vec<char> = Vec::new();
        push_str(&mut goal, "## Goal\n");
        push_str(&mut goal, ctx.goal.as_str());
        parts.push(goal);
        let mut run: Vec<char> = Vec::new();
        push_str(&mut run, "## Run state\nrun_id: ");
        push_str(&mut run, ctx.run_id.as_str());
        push_str(&mut run, "\nsession_id: ");
        push_str(&mut run, ctx.session_id.as_str());
        push_str(&mut run, "\niteration: ");
        let it = decimal_chars(ctx.iteration as u64);
        push_all(&mut run, it.as_slice());
        parts.push(run);
        let ghost base = seq!["## Goal\n"@ + ctx.goal@, run@];
        assert(parts@.map_values(|p: Vec<char>| p@) =~= base);
        let ghost hist_sec: Seq<Seq<char>> = Seq::empty();
        if ctx.task_history.len() > 0 {
            let mut lines: Vec<Vec<char>> = Vec::new();
            let mut i: usize = 0;
            while i < ctx.task_history.len()
                invariant
                    i <= ctx.task_history@.len(),
                    lines@.map_values(|p: Vec<char>| p@) == Seq::new(i as nat, |k: int| task_line(ctx.task_history@[k])),
                decreases ctx.task_history@.len() - i,
            {
                let t = &ctx.task_history[i];
                let mut l: Vec<char> = Vec::new();
                push_str(&mut l, "- [");
                push_str(&mut l, t.state.as_str());
                push_str(&mut l, "] ");
                push_str(&mut l, t.task_id.as_str());
                push_str(&mut l, " | ");
                let d = opt_chars(&t.description, "(no description)");
                push_all(&mut l, d.as_slice());
                push_str(&mut l, " | result: ");
                let res = opt_chars(&t.result, "\u{2014}");
                push_all(&mut l, res.as_slice());
                let ghost old_lines = lines@;
                lines.push(l);
                proof {
                    lemma_views_push(old_lines, lines@.last());
                    assert(old_lines.push(lines@.last()) == lines@);
                    assert(Seq::new((i + 1) as nat, |k: int| task_line(ctx.task_history@[k])) =~= Seq::new(i as nat, |k: int| task_line(ctx.task_history@[k])).push(task_line(ctx.task_history@[i as int])));
                }
                i = i + 1;
            }
            let nl = chars_of("\n");
            let body = join_chars(&lines, nl.as_slice());
            let mut sec: Vec<char> = Vec::new();
            push_str(&mut sec, "## Task history\n");
            push_all(&mut sec, body.as_slice());
            proof {
                hist_sec = seq![sec@];
            }
            parts.push(sec);
        }
        let ghost tools_sec: Seq<Seq<char>> = Seq::empty();
        if ctx.available_tools.len() > 0 {
            let tv = string_chars(&ctx.available_tools);
            let sep = chars_of(", ");
            let body = join_chars(&tv, sep.as_slice());
            let mut sec: Vec<char> = Vec::new();
            push_str(&mut sec, "## Available tools\n");
            push_all(&mut sec, body.as_slice());
            proof {
                tools_sec = seq![sec@];
            }
            parts.push(sec);
        }
        let ghost know_sec: Seq<Seq<char>> = Seq::empty();
        if ctx.memory_snippets.len() > 0 {
            let mut lines: Vec<Vec<char>> = Vec::new();
            let mut i: usize = 0;
            while i < ctx.memory_snippets.len()
                invariant
                    i <= ctx.memory_snippets@.len(),
                    ctx.memory_snippets@.len() <= usize::MAX,
                    lines@.map_values(|p: Vec<char>| p@) == Seq::new(i as nat, |k: int| snippet_line(k, ctx.memory_snippets@[k]@)),
                decreases ctx.memory_snippets@.len() - i,
            {
                let mut l: Vec<char> = Vec::new();
                push_str(&mut l, "[");
                let ip1 = i + 1;
                let num = decimal_chars(ip1 as u64);
                push_all(&mut l, num.as_slice());
                push_str(&mut l, "] ");
                push_str(&mut l, ctx.memory_snippets[i].as_str());
                let ghost old_lines = lines@;
                lines.push(l);
                proof {
                    lemma_views_push(old_lines, lines@.last());
                    assert(old_lines.push(lines@.last()) == lines@);
                    assert(Seq::new((i + 1) as nat, |k: int| snippet_line(k, ctx.memory_snippets@[k]@)) =~= Seq::new(i as nat, |k: int| snippet_line(k, ctx.memory_snippets@[k]@)).push(snippet_line(i as int, ctx.memory_snippets@[i as int]@)));
                }
                i = i + 1;
            }
            let nl = chars_of("\n");
            let body = join_chars(&lines, nl.as_slice());
            let mut sec: Vec<char> = Vec::new();
            push_str(&mut sec, "## Relevant knowledge\n");
            push_all(&mut sec, body.as_slice());
            proof {
                know_sec = seq![sec@];
            }
            parts.push(sec);
        }
        let ghost appr_sec: Seq<Seq<char>> = Seq::empty();
        if ctx.pending_approvals.len() > 0 {
            let av = string_chars(&ctx.pending_approvals);
            let sep = chars_of(", ");
            let body = join_chars(&av, sep.as_slice());
            let mut sec: Vec<char> = Vec::new();
            push_str(&mut sec, "## Pending approvals\n");
            let n = decimal_chars(ctx.pending_approvals.len() as u64);
            push_all(&mut sec, n.as_slice());
            push_str(&mut sec, " approval(s) awaiting decision: ");
            push_all(&mut sec, body.as_slice());
            proof {
                appr_sec = seq![sec@];
            }
            parts.push(sec);
        }
        let mut close: Vec<char> = Vec::new();
        push_str(&mut close, "## What should happen next?\nReturn a JSON action array.");
        parts.push(close);
        proof {
            assert(parts@.map_values(|p: Vec<char>| p@) =~= user_sections(*ctx));
        }
        let sep = chars_of("\n\n");
        let out = join_chars(&parts, sep.as_slice());
        string_from_chars(out.as_slice())
    }
}

/// Kind of action the brain model may propose.
#[derive(Clone, Copy, Debug, PartialEq, Eq, Structural)]
pub enum ActionType {
    SpawnSubagent,
    InvokeTool,
    CreateMemory,
    SendNotification,
    CompleteRun,
    EscalateToOperator,
}

/// The action type named by a wire string.
pub open spec fn action_type_of(s: Seq<char>) -> Option<ActionType> {
    if s == "spawn_subagent"@ {
        Some(ActionType::SpawnSubagent)
    } else if s == "invoke_tool"@ {
        Some(ActionType::InvokeTool)
    } else if s == "create_memory"@ {
        Some(ActionType::CreateMemory)
    } else if s == "send_notification"@ {
        Some(ActionType::SendNotification)
    } else if s == "complete_run"@ {
        Some(ActionType::CompleteRun)
    } else if s == "escalate_to_operator"@ {
        Some(ActionType::EscalateToOperator)
    } else {
        None
    }
}

/// `s` with `p` removed from its front, if it starts with `p`.
pub open spec fn strip_prefix(s: Seq<char>, p: Seq<char>) -> Option<Seq<char>> {
    if s.len() >= p.len() && s.take(p.len() as int) == p {
        Some(s.skip(p.len() as int))
    } else {
        None
    }
}

/// `s` with `p` removed from its end, if it ends with `p`.
pub open spec fn strip_suffix(s: Seq<char>, p: Seq<char>) -> Option<Seq<char>> {
    if s.len() >= p.len() && s.skip(s.len() - p.len()) == p {
        Some(s.take(s.len() - p.len()))
    } else {
        None
    }
}

/// The text inside an optional markdown code fence (```json … ``` or
/// ``` … ```), trimmed; the trimmed text itself when it is not fenced.
pub open spec fn unfenced(s: Seq<char>) -> Seq<char> {
    let t = trim(s);
    let inner = match strip_prefix(t, "```json"@) {
        Some(x) => Some(x),
        None => strip_prefix(t, "```"@),
    };
    match inner {
        Some(x) => match strip_suffix(x, "```"@) {
            Some(y) => trim(y),
            None => t,
        },
        None => t,
    }
}

fn strip_prefix_chars(s: &[char], p: &[char]) -> (r: Option<Vec<char>>)
    ensures
        match r {
            Some(x) => strip_prefix(s@, p@) == Some(x@),
            None => strip_prefix(s@, p@) is None,
        },
{
    if s.len() < p.len() {
        return None;
    }
    let mut i: usize = 0;
    while i < p.len()
        invariant
            i <= p@.len(),
            p@.len() <= s@.len(),
            forall|k: int| 0 <= k < i ==> s@[k] == p@[k],
        decreases p@.len() - i,
    {
        if s[i] != p[i] {
            assert(s@.take(p@.len() as int)[i as int] != p@[i as int]);
            return None;
        }
        i = i + 1;
    }
    assert(s@.take(p@.len() as int) =~= p@);
    let mut r: Vec<char> = Vec::new();
    let mut j = p.len();
    while j < s.len()
        invariant
            p@.len() <= j <= s@.len(),
            r@ == s@.subrange(p@.len() as int, j as int),
        decreases s@.len() - j,
    {
        r.push(s[j]);
        assert(r@ =~= s@.subrange(p@.len() as int, j + 1));
        j = j + 1;
    }
    assert(r@ =~= s@.skip(p@.len() as int));
    Some(r)
}

fn strip_suffix_chars(s: &[char], p: &[char]) -> (r: Option<Vec<char>>)
    ensures
        match r {
            Some(x) => strip_suffix(s@, p@) == Some(x@),
            None => strip_suffix(s@, p@) is None,
        },
{
    if s.len() < p.len() {
        return None;
    }
    let sl = s.len();
    let off = sl - p.len();
    let mut i: usize = 0;
    while i < p.len()
        invariant
            i <= p@.len(),
            sl == s@.len(),
            off + p@.len() == sl,
            forall|k: int| 0 <= k < i ==> s@[off + k] == p@[k],
        decreases p@.len() - i,
    {
        if s[off + i] != p[i] {
            assert(s@.skip(off as int)[i as int] != p@[i as int]);
            return None;
        }
        i = i + 1;
    }
    assert(s@.skip(off as int) =~= p@);
    let mut r: Vec<char> = Vec::new();
    let mut j: usize = 0;
    while j < off
        invariant
            j <= off,
            off <= s@.len(),
            r@ == s@.take(j as int),
        decreases off - j,
    {
        r.push(s[j]);
        assert(r@ =~= s@.take(j + 1));
        j = j + 1;
    }
    Some(r)
}

/// What a proposal holds besides its confidence, which stays as the JSON
/// number text given (if any).
#[derive(Debug)]
pub struct ActionFields {
    pub action_type: ActionType,
    pub description: String,
    /// The `confidence` field when it is a number, by its JSON text.
    pub confidence: Option<String>,
    pub requires_approval: bool,
    pub tool_name: Option<String>,
    pub tool_args: Option<JsonValue>,
}

/// The string under `key`, if it is a string.
pub open spec fn str_field(v: JsonValue, key: Seq<char>) -> Option<Seq<char>> {
    match field_of(v, key) {
        Some(JsonValue::Str(s)) => Some(s@),
        _ => None,
    }
}

fn get_str_field(v: &JsonValue, key: &str) -> (r: Option<String>)
    ensures
        match r {
            Some(s) => str_field(*v, key@) == Some(s@),
            None => str_field(*v, key@) is None,
        },
{
    let k = chars_of(key);
    match get_field(v, k.as_slice()) {
        Some(JsonValue::Str(s)) => Some(s.clone()),
        _ => None,
    }
}

/// Reads parsed LLM output into action proposals.
pub struct ResponseParser;

impl ResponseParser {
    /// Strips optional markdown code fences (```json … ``` or ``` … ```).
    pub fn strip_markdown_fence(s: &str) -> (r: String)
        ensures
            r@ == unfenced(s@),
    {
        let c = chars_of(s);
        let t = trim_chars(c.as_slice());
        let pj = chars_of("```json");
        let pf = chars_of("```");
        let inner = match strip_prefix_chars(t.as_slice(), pj.as_slice()) {
            Some(x) => Some(x),
            None => strip_prefix_chars(t.as_slice(), pf.as_slice()),
        };
        match inner {
            Some(x) => match strip_suffix_chars(x.as_slice(), pf.as_slice()) {
                Some(y) => {
                    let z = trim_chars(y.as_slice());
                    string_from_chars(z.as_slice())
                },
                None => string_from_chars(t.as_slice()),
            },
            None => string_from_chars(t.as_slice()),
        }
    }

    /// The action type named by a wire string.
    pub fn parse_action_type(s: &str) -> (r: Option<ActionType>)
        ensures
            r == action_type_of(s@),
    {
        let c = chars_of(s);
        let a = chars_of("spawn_subagent");
        if chars_eq(c.as_slice(), a.as_slice()) {
            return Some(ActionType::SpawnSubagent);
        }
        let a = chars_of("invoke_tool");
        if chars_eq(c.as_slice(), a.as_slice()) {
            return Some(ActionType::InvokeTool);
        }
        let a = chars_of("create_memory");
        if chars_eq(c.as_slice(), a.as_slice()) {
            return Some(ActionType::CreateMemory);
        }
        let a = chars_of("send_notification");
        if chars_eq(c.as_slice(), a.as_slice()) {
            return Some(ActionType::SendNotification);
        }
        let a = chars_of("complete_run");
        if chars_eq(c.as_slice(), a.as_slice()) {
            return Some(ActionType::CompleteRun);
        }
        let a = chars_of("escalate_to_operator");
        if chars_eq(c.as_slice(), a.as_slice()) {
            return Some(ActionType::EscalateToOperator);
        }
        None
    }

    /// Reads one element of the model's output; `None` when it is not an
    /// object or has no known `action_type`. Missing fields default: empty
    /// description, no approval needed, no tool.
    pub fn parse_action_value(v: JsonValue) -> (r: Option<ActionFields>)
        ensures
            match r {
                Some(f) => {
                    &&& v is Object
                    &&& str_field(v, "action_type"@) is Some
                    &&& action_type_of(str_field(v, "action_type"@).unwrap()) == Some(f.action_type)
                    &&& f.description@ == match str_field(v, "description"@) {
                        Some(d) => d,
                        None => Seq::empty(),
                    }
                    &&& opt_string_view(f.confidence) == match field_of(v, "confidence"@) {
                        Some(JsonValue::Number(n)) => Some(n@),
                        _ => None,
                    }
                    &&& f.requires_approval == match field_of(v, "requires_approval"@) {
                        Some(JsonValue::Bool(b)) => b,
                        _ => false,
                    }
                    &&& opt_string_view(f.tool_name) == str_field(v, "tool_name"@)
                    &&& f.tool_args == field_of(v, "tool_args"@)
                },
                None => !(v is Object) || str_field(v, "action_type"@) is None || action_type_of(
                    str_field(v, "action_type"@).unwrap(),
                ) is None,
            },
    {
        match &v {
            JsonValue::Object { .. } => {},
            _ => return None,
        }
        let type_str = match get_str_field(&v, "action_type") {
            Some(s) => s,
            None => return None,
        };
        let action_type = match Self::parse_action_type(type_str.as_str()) {
            Some(t) => t,
            None => return None,
        };
        let description = match get_str_field(&v, "description") {
            Some(d) => d,
            None => String::new(),
        };
        let kc = chars_of("confidence");
        let confidence = match get_field(&v, kc.as_slice()) {
            Some(JsonValue::Number(n)) => Some(n.clone()),
            _ => None,
        };
        let ka = chars_of("requires_approval");
        let requires_approval = match get_field(&v, ka.as_slice()) {
            Some(JsonValue::Bool(b)) => *b,
            _ => false,
        };
        let tool_name = get_str_field(&v, "tool_name");
        let kt = chars_of("tool_args");
        let tool_args = take_field(v, kt.as_slice());
        Some(ActionFields { action_type, description, confidence, requires_approval, tool_name, tool_args })
    }
}

pub open spec fn opt_string_view(o: Option<String>) -> Option<Seq<char>> {
    match o {
        Some(s) => Some(s@),
        None => None,
    }
}

/// The number of bytes UTF-8 takes for a character.
pub open spec fn utf8_width(c: char) -> nat {
    if (c as u32) < 0x80 {
        1
    } else if (c as u32) < 0x800 {
        2
    } else if (c as u32) < 0x10000 {
        3
    } else {
        4
    }
}

/// The number of bytes UTF-8 takes for a text.
pub open spec fn utf8_len(s: Seq<char>) -> nat
    decreases s.len(),
{
    if s.len() == 0 {
        0
    } else {
        utf8_len(s.drop_last()) + utf8_width(s.last())
    }
}

/// How much of a non-JSON reply the escalation quotes, in bytes.
pub const QUOTE_LIMIT: u64 = 200;

/// Whether the first `k` characters of a text are the longest prefix that
/// fits in `QUOTE_LIMIT` bytes.
pub open spec fn quote_end(raw: Seq<char>, k: int) -> bool {
    &&& 0 <= k <= raw.len()
    &&& utf8_len(raw.take(k)) <= QUOTE_LIMIT
    &&& (k < raw.len() ==> utf8_len(raw.take(k + 1)) > QUOTE_LIMIT)
}

/// The characters of `raw` within its first `QUOTE_LIMIT` bytes: the
/// longest prefix that fits, cut at a character boundary.
pub open spec fn quote_of(raw: Seq<char>) -> Seq<char> {
    raw.take(choose|k: int| #[trigger] quote_end(raw, k))
}

proof fn lemma_utf8_len_take(s: Seq<char>, k: int)
    requires
        0 <= k < s.len(),
    ensures
        utf8_len(s.take(k + 1)) == utf8_len(s.take(k)) + utf8_width(s[k]),
        utf8_len(s.take(k)) < utf8_len(s.take(k + 1)),
{
    assert(s.take(k + 1).drop_last() =~= s.take(k));
}

proof fn lemma_utf8_len_mono(s: Seq<char>, a: int, b: int)
    requires
        0 <= a <= b <= s.len(),
    ensures
        utf8_len(s.take(a)) <= utf8_len(s.take(b)),
        a < b ==> utf8_len(s.take(a)) < utf8_len(s.take(b)),
    decreases b - a,
{
    if a < b {
        lemma_utf8_len_take(s, b - 1);
        lemma_utf8_len_mono(s, a, b - 1);
    }
}

fn char_width(c: char) -> (r: u64)
    ensures
        r == utf8_width(c),
{
    let n = c as u32;
    if n < 0x80 {
        1
    } else if n < 0x800 {
        2
    } else if n < 0x10000 {
        3
    } else {
        4
    }
}

/// The characters within the first `QUOTE_LIMIT` bytes of a text.
fn quote_prefix(raw: &str) -> (r: Vec<char>)
    ensures
        r@ == quote_of(raw@),
{
    let c = chars_of(raw);
    let ghost s = raw@;
    let mut out: Vec<char> = Vec::new();
    let mut bytes: u64 = 0;
    let mut i: usize = 0;
    while i < c.len()
        invariant
            i <= c@.len(),
            c@ == s,
            out@ == s.take(i as int),
            bytes == utf8_len(s.take(i as int)),
            bytes <= QUOTE_LIMIT,
        ensures
            i <= c@.len(),
            out@ == s.take(i as int),
            bytes == utf8_len(s.take(i as int)),
            bytes <= QUOTE_LIMIT,
            i < c@.len() ==> bytes + utf8_width(s[i as int]) > QUOTE_LIMIT,
        decreases c@.len() - i,
    {
        let w = char_width(c[i]);
        if bytes + w > QUOTE_LIMIT {
            break;
        }
        proof {
            lemma_utf8_len_take(s, i as int);
        }
        out.push(c[i]);
        bytes = bytes + w;
        i = i + 1;
        assert(out@ =~= s.take(i as int));
    }
    proof {
        if i < c@.len() {
            lemma_utf8_len_take(s, i as int);
        }
        assert(quote_end(s, i as int));
        let k = choose|k: int| #[trigger] quote_end(s, k);
        if k < i {
            lemma_utf8_len_mono(s, k + 1, i as int);
        } else if k > i {
            lemma_utf8_len_mono(s, i + 1, k);
        }
        assert(k == i);
    }
    out
}

/// The proposal made when the reply cannot be read: hand the run to the
/// operator, quoting the reply.
pub open spec fn escalation_of(raw: Seq<char>) -> (ActionType, Seq<char>, Option<Seq<char>>, bool) {
    (ActionType::EscalateToOperator, "LLM returned a non-JSON response: "@ + quote_of(raw), Some("0"@), true)
}

/// A proposal as plain values: type, description, confidence text, approval flag.
pub open spec fn fields_view(f: ActionFields) -> (ActionType, Seq<char>, Option<Seq<char>>, bool) {
    (f.action_type, f.description@, opt_string_view(f.confidence), f.requires_approval)
}

/// The proposals read from the elements of an array, in order, skipping
/// those that are no proposal.
pub open spec fn read_all(items: Seq<JsonValue>) -> Seq<Option<(ActionType, Seq<char>, Option<Seq<char>>, bool)>> {
    items.map_values(|v: JsonValue| read_one(v))
}

/// What `parse_action_value` makes of a value, as plain values.
pub open spec fn read_one(v: JsonValue) -> Option<(ActionType, Seq<char>, Option<Seq<char>>, bool)> {
    if v is Object && str_field(v, "action_type"@) is Some && action_type_of(str_field(v, "action_type"@).unwrap()) is Some {
        Some((
            action_type_of(str_field(v, "action_type"@).unwrap()).unwrap(),
            match str_field(v, "description"@) {
                Some(d) => d,
                None => Seq::empty(),
            },
            match field_of(v, "confidence"@) {
                Some(JsonValue::Number(n)) => Some(n@),
                _ => None,
            },
            match field_of(v, "requires_approval"@) {
                Some(JsonValue::Bool(b)) => b,
                _ => false,
            },
        ))
    } else {
        None
    }
}

/// The proposals that are some, in order.
pub open spec fn somes<T>(s: Seq<Option<T>>) -> Seq<T>
    decreases s.len(),
{
    if s.len() == 0 {
        Seq::empty()
    } else {
        let rest = somes(s.drop_last());
        match s.last() {
            Some(x) => rest.push(x),
            None => rest,
        }
    }
}

/// What the parser makes of a reply, given what its unfenced text parses
/// to as JSON (`None` when it is not JSON): the proposals of an array when
/// it has any; the proposal of a single object; otherwise an escalation.
pub open spec fn parsed_reply(raw: Seq<char>, parsed: Option<JsonValue>) -> Seq<(ActionType, Seq<char>, Option<Seq<char>>, bool)> {
    match parsed {
        Some(JsonValue::Array { items, .. }) if somes(read_all(items@)).len() > 0 => somes(read_all(items@)),
        Some(v) if read_one(v) is Some => seq![read_one(v).unwrap()],
        _ => seq![escalation_of(raw)],
    }
}

impl ResponseParser {
    /// The proposals read from the elements of an array, in order.
    fn parse_all(items: Vec<JsonValue>) -> (r: Vec<ActionFields>)
        ensures
            r@.map_values(|f: ActionFields| fields_view(f)) == somes(read_all(items@)),
    {
        let ghost all = items@;
        let n = items.len();
        let mut rest = items;
        let mut out: Vec<ActionFields> = Vec::new();
        let mut i: usize = 0;
        while rest.len() > 0
            invariant
                i + rest@.len() == n,
                n == all.len(),
                rest@ == all.subrange(i as int, n as int),
                out@.map_values(|f: ActionFields| fields_view(f)) == somes(read_all(all.take(i as int))),
            decreases rest@.len(),
        {
            let v = rest.remove(0);
            let ghost before = out@;
            proof {
                assert(v == all[i as int]);
                assert(all.take(i + 1) =~= all.take(i as int).push(v));
                assert(read_all(all.take(i + 1)).drop_last() =~= read_all(all.take(i as int)));
                assert(read_all(all.take(i + 1)).last() == read_one(v));
                assert(rest@ =~= all.subrange(i + 1, n as int));
            }
            match Self::parse_action_value(v) {
                Some(f) => {
                    out.push(f);
                    assert(out@.map_values(|f: ActionFields| fields_view(f)) =~= before.map_values(|f: ActionFields| fields_view(f)).push(fields_view(out@.last())));
                },
                None => {},
            }
            i = i + 1;
        }
        assert(all.take(n as int) =~= all);
        out
    }

    /// Reads the model's reply into proposals. `parsed` is what the reply,
    /// trimmed and stripped of markdown fences, parses to as JSON, `None`
    /// when it is not JSON. Never fails: an unreadable reply becomes a
    /// single escalation that quotes the reply's first 200 bytes (cut at
    /// the last character boundary within them).
    pub fn parse(raw: &str, parsed: Option<JsonValue>) -> (r: Vec<ActionFields>)
        ensures
            r@.map_values(|f: ActionFields| fields_view(f)) == parsed_reply(raw@, parsed),
    {
        let fallback = match parsed {
            Some(JsonValue::Array { items, encoded }) => {
                let out = Self::parse_all(items);
                if out.len() > 0 {
                    return out;
                }
                true
            },
            Some(v) => {
                let ghost v0 = v;
                match Self::parse_action_value(v) {
                    Some(f) => {
                        let mut out: Vec<ActionFields> = Vec::new();
                        out.push(f);
                        assert(out@.map_values(|f: ActionFields| fields_view(f)) =~= seq![read_one(v0).unwrap()]);
                        return out;
                    },
                    None => true,
                }
            },
            None => true,
        };
        let mut v: Vec<char> = Vec::new();
        push_str(&mut v, "LLM returned a non-JSON response: ");
        let q = quote_prefix(raw);
        push_all(&mut v, q.as_slice());
        let description = string_from_chars(v.as_slice());
        let mut out: Vec<ActionFields> = Vec::new();
        out.push(ActionFields {
            action_type: ActionType::EscalateToOperator,
            description,
            confidence: Some("0".to_owned()),
            requires_approval: true,
            tool_name: None,
            tool_args: None,
        });
        proof {
            reveal_strlit("0");
            assert(out@.map_values(|f: ActionFields| fields_view(f)) =~= seq![escalation_of(raw@)]);
        }
        out
    }
}

} // verus!
