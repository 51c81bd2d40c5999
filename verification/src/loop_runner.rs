//! The agent loop as a state machine.
//!
//! The loop asks the model for a completion, runs the tools that it calls for and asks again, until
//! the model is done, a budget is spent or the user stops it. What it asks and runs happens outside;
//! each method here takes what came of it and says what comes next.
use crate::json::{json_in, json_text, parse_json, Json, JsonView};
use crate::text::{begins_with, blank, cat2, chars_of, same, taken};
use crate::tool::{
    error_json, error_text, tool_args, tool_args_of, AgentToolKind, ToolResultMetadata,
};
use crate::types::{
    copy_calls, copy_messages, AgentCompletionRequest, AgentMessage, AgentToolCall,
    AgentToolDefinition, CacheControl, CallView, CitationView, DefinitionView, FinishReason,
    GenerationStreamEvent, MessageView, SourceCitation, TokenUsage,
};
use vstd::prelude::*;

verus! {

/// An error that ends the loop.
#[derive(Debug, Clone, PartialEq, Eq)]
pub struct AgentLoopError {
    pub code: String,
    pub message: String,
    pub retryable: bool,
}

impl AgentLoopError {
    /// An error with a code, a message and whether trying again may help.
    pub fn new(code: String, message: String, retryable: bool) -> (r: Self)
        ensures
            r == (AgentLoopError { code, message, retryable }),
    {
        AgentLoopError { code, message, retryable }
    }
}

/// Why the loop stopped.
#[derive(Debug, Clone, Copy, PartialEq, Eq, Structural)]
pub enum AgentStopReason {
    Complete,
    MaxRounds,
    BudgetExhausted,
    ContextLimit,
    Aborted,
    Stopped,
}

/// How much of the context window a completion filled: the bits of the double, whether it is enough
/// to compact the conversation, and whether it is enough to stop the loop.
#[derive(Debug, Clone, Copy, PartialEq, Eq, Structural)]
pub struct ContextShare {
    pub bits: u64,
    pub needs_compaction: bool,
    pub at_limit: bool,
}

/// What the loop reports while it runs.
#[derive(Debug, Clone, PartialEq, Eq)]
pub enum AgentLoopEvent {
    RoundStart(u32),
    GenerationStart(u32, String),
    Delta(String),
    Reasoning(String),
    ToolStart(String, String, String),
    ToolEnd(String, String, bool, String, u64, ToolResultMetadata),
    Citation(SourceCitation),
    RoundCost(u64, u64),
    RoundUsage(TokenUsage, Option<ContextShare>),
}

/// The mathematical value of an [`AgentLoopEvent`].
pub enum EventView {
    RoundStart(nat),
    GenerationStart(nat, Seq<char>),
    Delta(Seq<char>),
    Reasoning(Seq<char>),
    ToolStart(Seq<char>, Seq<char>, Seq<char>),
    ToolEnd(Seq<char>, Seq<char>, bool, Seq<char>, nat, ToolResultMetadata),
    Citation(CitationView),
    RoundCost(nat, nat),
    RoundUsage(TokenUsage, Option<ContextShare>),
}

impl View for AgentLoopEvent {
    type V = EventView;

    open spec fn view(&self) -> EventView {
        match self {
            AgentLoopEvent::RoundStart(n) => EventView::RoundStart(*n as nat),
            AgentLoopEvent::GenerationStart(n, id) => EventView::GenerationStart(*n as nat, id@),
            AgentLoopEvent::Delta(s) => EventView::Delta(s@),
            AgentLoopEvent::Reasoning(s) => EventView::Reasoning(s@),
            AgentLoopEvent::ToolStart(name, args, id) => EventView::ToolStart(name@, args@, id@),
            AgentLoopEvent::ToolEnd(name, output, failed, id, ms, data) => EventView::ToolEnd(
                name@,
                output@,
                *failed,
                id@,
                *ms as nat,
                *data,
            ),
            AgentLoopEvent::Citation(c) => EventView::Citation(c@),
            AgentLoopEvent::RoundCost(c, total) => EventView::RoundCost(*c as nat, *total as nat),
            AgentLoopEvent::RoundUsage(u, share) => EventView::RoundUsage(*u, *share),
        }
    }
}

impl DeepView for AgentLoopEvent {
    type V = EventView;

    open spec fn deep_view(&self) -> EventView {
        self@
    }
}

/// A tool as the loop sees it.
#[derive(Debug, PartialEq, Eq)]
pub struct LoopTool {
    pub definition: AgentToolDefinition,
    pub kind: AgentToolKind,
}

impl View for LoopTool {
    type V = (DefinitionView, AgentToolKind);

    open spec fn view(&self) -> (DefinitionView, AgentToolKind) {
        (self.definition@, self.kind)
    }
}

impl DeepView for LoopTool {
    type V = (DefinitionView, AgentToolKind);

    open spec fn deep_view(&self) -> (DefinitionView, AgentToolKind) {
        self@
    }
}

/// What stays the same while the loop runs.
#[derive(Debug, PartialEq, Eq)]
pub struct LoopSettings {
    pub model: String,
    pub tools: Vec<LoopTool>,
    pub max_rounds: u32,
    pub max_credits_micro: Option<u64>,
    pub temperature_bits: Option<u64>,
    pub max_output_tokens: Option<u32>,
    pub session_id: Option<String>,
    pub cache_control: bool,
    pub web_search: bool,
}

/// What the loop is started with.
#[derive(Debug, PartialEq, Eq)]
pub struct AgentLoopOptions {
    pub settings: LoopSettings,
    pub messages: Vec<AgentMessage>,
    pub resume_generation_id: Option<String>,
}

/// What the loop is doing.
#[derive(Debug, Clone, Copy, PartialEq, Eq, Structural)]
pub enum LoopPhase {
    /// Between two rounds.
    Ready,
    /// A completion is being read.
    Streaming,
    /// The calls of a completion are being run.
    Tools,
    /// The loop has stopped.
    Finished,
}

/// The agent loop.
#[derive(Debug)]
pub struct AgentLoop {
    pub settings: LoopSettings,
    pub messages: Vec<AgentMessage>,
    pub cost_micro: u64,
    pub final_text: String,
    pub last_usage: Option<TokenUsage>,
    pub context: Option<ContextShare>,
    pub sources: Vec<SourceCitation>,
    pub round: u32,
    pub resume: Option<String>,
    pub phase: LoopPhase,
    pub stop_reason: Option<AgentStopReason>,
    pub text: String,
    pub calls: Vec<AgentToolCall>,
    pub reason: FinishReason,
    pub queue: Vec<AgentToolCall>,
    pub next: usize,
    pub exclusive: Option<String>,
    pub pending: bool,
}

/// The mathematical value of an [`AgentLoop`].
#[verifier::ext_equal]
pub struct LoopView {
    /// The tools on offer: the name and kind of each.
    pub tools: Seq<(Seq<char>, AgentToolKind)>,
    pub max_rounds: nat,
    pub cap: Option<nat>,
    pub messages: Seq<MessageView>,
    pub cost: nat,
    pub final_text: Seq<char>,
    pub last_usage: Option<TokenUsage>,
    pub context: Option<ContextShare>,
    pub sources: Seq<CitationView>,
    /// The rounds that count as taken.
    pub round: nat,
    /// A generation to take up again in the next round.
    pub resume: Option<Seq<char>>,
    pub phase: LoopPhase,
    pub stop_reason: Option<AgentStopReason>,
    /// What the completion being read has given so far.
    pub text: Seq<char>,
    pub calls: Seq<CallView>,
    pub reason: FinishReason,
    /// The calls that are still to be answered.
    pub queue: Seq<CallView>,
    /// The one call that may run, where a call asks the user.
    pub exclusive: Option<Seq<char>>,
    /// Whether the calls were left over from an earlier run of the loop.
    pub pending: bool,
}

/// The names and kinds of tools.
pub open spec fn tool_kinds(tools: Seq<LoopTool>) -> Seq<(Seq<char>, AgentToolKind)> {
    tools.map_values(|t: LoopTool| (t.definition.name@, t.kind))
}

/// A bound as a natural number.
pub open spec fn nat_of(n: Option<u64>) -> Option<nat> {
    match n {
        Some(n) => Some(n as nat),
        None => None,
    }
}

impl View for AgentLoop {
    type V = LoopView;

    open spec fn view(&self) -> LoopView {
        LoopView {
            tools: tool_kinds(self.settings.tools@),
            max_rounds: self.settings.max_rounds as nat,
            cap: nat_of(self.settings.max_credits_micro),
            messages: self.messages.deep_view(),
            cost: self.cost_micro as nat,
            final_text: self.final_text@,
            last_usage: self.last_usage,
            context: self.context,
            sources: self.sources.deep_view(),
            round: self.round as nat,
            resume: self.resume.deep_view(),
            phase: self.phase,
            stop_reason: self.stop_reason,
            text: self.text@,
            calls: self.calls.deep_view(),
            reason: self.reason,
            queue: self.queue.deep_view().skip(self.next as int),
            exclusive: self.exclusive.deep_view(),
            pending: self.pending,
        }
    }
}

impl LoopView {
    /// What holds of the loop at all times.
    pub open spec fn wf(self) -> bool {
        &&& self.round <= self.max_rounds
        &&& self.phase == LoopPhase::Streaming ==> self.round < self.max_rounds
        &&& (self.stop_reason is Some <==> self.phase == LoopPhase::Finished)
        &&& (self.queue.len() > 0 ==> self.phase == LoopPhase::Tools)
        &&& distinct_urls(self.sources)
    }
}

impl AgentLoop {
    /// What holds of the loop at all times.
    pub open spec fn wf(self) -> bool {
        self@.wf() && self.next <= self.queue@.len()
    }
}

/// No two citations have the same address.
pub open spec fn distinct_urls(sources: Seq<CitationView>) -> bool {
    forall|i: int, j: int| 0 <= i < j < sources.len() ==> sources[i].url != sources[j].url
}

/// Whether a citation of an address is among the sources.
pub open spec fn cited(sources: Seq<CitationView>, url: Seq<char>) -> bool {
    exists|i: int| 0 <= i < sources.len() && (#[trigger] sources[i]).url == url
}

// ---------------------------------------------------------------------------------------------
// Calls
// ---------------------------------------------------------------------------------------------

/// The kind of the tool of a name; of two tools with one name the later counts.
pub open spec fn kind_of(tools: Seq<(Seq<char>, AgentToolKind)>, name: Seq<char>) -> Option<
    AgentToolKind,
>
    decreases tools.len(),
{
    if tools.len() == 0 {
        None
    } else if tools.last().0 == name {
        Some(tools.last().1)
    } else {
        kind_of(tools.drop_last(), name)
    }
}

/// The first call of a tool that asks the user.
pub open spec fn interaction_of(
    tools: Seq<(Seq<char>, AgentToolKind)>,
    calls: Seq<CallView>,
) -> Option<Seq<char>>
    decreases calls.len(),
{
    if calls.len() == 0 {
        None
    } else if kind_of(tools, calls[0].name) == Some(AgentToolKind::Interact) {
        Some(calls[0].id)
    } else {
        interaction_of(tools, calls.skip(1))
    }
}

/// What is to be done for a call.
#[derive(Debug, PartialEq, Eq)]
pub enum CallPlan {
    /// Nothing runs: the answer is given.
    Answer(String),
    /// The tool runs if it is allowed to.
    Authorize(Json),
    /// The tool runs.
    Run(Json),
}

/// The mathematical value of a [`CallPlan`].
pub enum PlanView {
    Answer(Seq<char>),
    Authorize(JsonView),
    Run(JsonView),
}

impl View for CallPlan {
    type V = PlanView;

    open spec fn view(&self) -> PlanView {
        match self {
            CallPlan::Answer(s) => PlanView::Answer(s@),
            CallPlan::Authorize(args) => PlanView::Authorize(args@),
            CallPlan::Run(args) => PlanView::Run(args@),
        }
    }
}

/// What the model is told of a call that did not run because another asks the user.
pub open spec fn deferred_text() -> Seq<char> {
    json_text(
        error_json(
            "deferred_for_user_input"@,
            "This tool was not executed because ask_user must run alone. Reconsider and retry it after reading the user's answer."@,
        ),
    )
}

/// What is to be done for a call, where `parsed` is its arguments read as JSON.
pub open spec fn planned(
    tools: Seq<(Seq<char>, AgentToolKind)>,
    exclusive: Option<Seq<char>>,
    call: CallView,
    parsed: Option<JsonView>,
) -> PlanView {
    if exclusive is Some && exclusive->0 != call.id {
        PlanView::Answer(deferred_text())
    } else {
        match kind_of(tools, call.name) {
            None => PlanView::Answer("Unknown tool: "@ + call.name),
            Some(kind) => match tool_args(call.arguments, parsed) {
                Err(message) => PlanView::Answer(message),
                Ok(args) => if kind == AgentToolKind::Edit || kind == AgentToolKind::Shell {
                    PlanView::Authorize(args)
                } else {
                    PlanView::Run(args)
                },
            },
        }
    }
}

/// Looks up the kind of a tool.
pub fn find_kind(tools: &Vec<LoopTool>, name: &str) -> (r: Option<AgentToolKind>)
    ensures
        r == kind_of(tool_kinds(tools@), name@),
{
    let ghost all = tool_kinds(tools@);
    let mut i: usize = tools.len();
    assert(all.take(i as int) =~= all);
    while i > 0
        invariant
            i <= tools@.len(),
            all == tool_kinds(tools@),
            kind_of(all, name@) == kind_of(all.take(i as int), name@),
        decreases i,
    {
        i -= 1;
        let ghost head = all.take(i + 1);
        assert(head.drop_last() =~= all.take(i as int));
        assert(head.last() == (tools@[i as int].definition.name@, tools@[i as int].kind));
        if same(tools[i].definition.name.as_str(), name) {
            return Some(tools[i].kind);
        }
    }
    None
}

/// The first call of a tool that asks the user.
pub fn interaction_call_id(tools: &Vec<LoopTool>, calls: &Vec<AgentToolCall>) -> (r: Option<String>)
    ensures
        r.deep_view() == interaction_of(tool_kinds(tools@), calls.deep_view()),
{
    let ghost all = calls.deep_view();
    let mut i: usize = 0;
    assert(all.skip(0) =~= all);
    while i < calls.len()
        invariant
            i <= calls@.len(),
            all == calls.deep_view(),
            interaction_of(tool_kinds(tools@), all) == interaction_of(
                tool_kinds(tools@),
                all.skip(i as int),
            ),
        decreases calls.len() - i,
    {
        assert(all.skip(i as int)[0] == calls@[i as int]@);
        assert(all.skip(i as int).skip(1) =~= all.skip(i + 1));
        if find_kind(tools, calls[i].name.as_str()) == Some(AgentToolKind::Interact) {
            return Some(calls[i].id.clone());
        }
        i += 1;
    }
    None
}

/// What is to be done for a call, where `parsed` is its arguments read as JSON.
pub fn plan_call(
    tools: &Vec<LoopTool>,
    exclusive: &Option<String>,
    call: &AgentToolCall,
    parsed: Option<Json>,
) -> (r: CallPlan)
    ensures
        r@ == planned(tool_kinds(tools@), exclusive.deep_view(), call@, parsed.deep_view()),
{
    if let Some(id) = exclusive {
        if !same(id.as_str(), call.id.as_str()) {
            return CallPlan::Answer(
                error_text(
                    "deferred_for_user_input",
                    "This tool was not executed because ask_user must run alone. Reconsider and retry it after reading the user's answer.",
                ),
            );
        }
    }
    match find_kind(tools, call.name.as_str()) {
        None => CallPlan::Answer(cat2("Unknown tool: ", call.name.as_str())),
        Some(kind) => match tool_args_of(call.arguments.as_str(), parsed) {
            Err(message) => CallPlan::Answer(message),
            Ok(args) => if kind == AgentToolKind::Edit || kind == AgentToolKind::Shell {
                CallPlan::Authorize(args)
            } else {
                CallPlan::Run(args)
            },
        },
    }
}

/// The answer to a call whose tool could not say what it needs permission for.
pub open spec fn failed_text(error: Seq<char>) -> Seq<char> {
    "Tool authorization failed: "@ + error
}

/// The answer to a call that was not allowed.
pub open spec fn denied_text() -> Seq<char> {
    "Permission denied for this tool call. Ask before retrying, or take another approach."@
}

/// The answer to a call whose tool could not say what it needs permission for.
pub fn authorization_failed(error: &str) -> (r: String)
    ensures
        r@ == failed_text(error@),
{
    cat2("Tool authorization failed: ", error)
}

/// The answer to a call that was not allowed.
pub fn permission_denied() -> (r: String)
    ensures
        r@ == denied_text(),
{
    "Permission denied for this tool call. Ask before retrying, or take another approach.".to_owned()
}

// ---------------------------------------------------------------------------------------------
// Calls left over from an earlier run
// ---------------------------------------------------------------------------------------------

/// The place of the last message with calls; -1 where there is none.
pub open spec fn last_call_index(messages: Seq<MessageView>) -> int
    decreases messages.len(),
{
    if messages.len() == 0 {
        -1
    } else if messages.last() is Assistant && messages.last()->Assistant_1 is Some {
        messages.len() - 1
    } else {
        last_call_index(messages.drop_last())
    }
}

/// Whether a call is answered by a message from a place on.
pub open spec fn answered(messages: Seq<MessageView>, from: int, id: Seq<char>) -> bool {
    exists|j: int|
        from <= j < messages.len() && (#[trigger] messages[j]) is Tool && messages[j]->Tool_0 == id
}

/// The calls that no message from a place on answers.
pub open spec fn unanswered(
    calls: Seq<CallView>,
    messages: Seq<MessageView>,
    from: int,
) -> Seq<CallView>
    decreases calls.len(),
{
    if calls.len() == 0 {
        Seq::empty()
    } else if answered(messages, from, calls.last().id) {
        unanswered(calls.drop_last(), messages, from)
    } else {
        unanswered(calls.drop_last(), messages, from).push(calls.last())
    }
}

/// The last calls of a conversation.
pub open spec fn last_calls(messages: Seq<MessageView>) -> Seq<CallView> {
    let at = last_call_index(messages);
    if at < 0 {
        Seq::empty()
    } else {
        messages[at]->Assistant_1->0
    }
}

/// The calls of a conversation that are still to be answered.
pub open spec fn pending_calls(messages: Seq<MessageView>) -> Seq<CallView> {
    unanswered(last_calls(messages), messages, last_call_index(messages) + 1)
}

proof fn last_call_index_bounds(messages: Seq<MessageView>)
    ensures
        -1 <= last_call_index(messages) < messages.len(),
        last_call_index(messages) >= 0 ==> {
            let m = messages[last_call_index(messages)];
            m is Assistant && m->Assistant_1 is Some
        },
    decreases messages.len(),
{
    if messages.len() > 0 {
        last_call_index_bounds(messages.drop_last());
    }
}

fn is_answered(messages: &Vec<AgentMessage>, from: usize, id: &str) -> (r: bool)
    requires
        from <= messages@.len(),
    ensures
        r == answered(messages.deep_view(), from as int, id@),
{
    let ghost all = messages.deep_view();
    let mut j: usize = from;
    while j < messages.len()
        invariant
            from <= j <= messages@.len(),
            all == messages.deep_view(),
            forall|k: int|
                from <= k < j ==> !((#[trigger] all[k]) is Tool && all[k]->Tool_0 == id@),
        decreases messages.len() - j,
    {
        assert(all[j as int] == messages@[j as int]@);
        if let AgentMessage::Tool { tool_call_id, .. } = &messages[j] {
            if same(tool_call_id.as_str(), id) {
                return true;
            }
        }
        j += 1;
    }
    false
}

/// Where the last message with calls stands, one past it; 0 where there is none.
fn after_last_calls(messages: &Vec<AgentMessage>) -> (r: usize)
    ensures
        r == last_call_index(messages.deep_view()) + 1,
{
    let ghost all = messages.deep_view();
    let mut i: usize = messages.len();
    assert(all.take(i as int) =~= all);
    while i > 0
        invariant
            i <= messages@.len(),
            all == messages.deep_view(),
            last_call_index(all) == last_call_index(all.take(i as int)),
        decreases i,
    {
        assert(all.take(i as int).last() == messages@[i - 1]@);
        assert(all.take(i as int).drop_last() =~= all.take(i - 1));
        if let AgentMessage::Assistant { tool_calls: Some(_), .. } = &messages[i - 1] {
            return i;
        }
        i -= 1;
    }
    0
}

fn unanswered_calls(calls: &Vec<AgentToolCall>, messages: &Vec<AgentMessage>, from: usize) -> (r: Vec<
    AgentToolCall,
>)
    requires
        from <= messages@.len(),
    ensures
        r.deep_view() == unanswered(calls.deep_view(), messages.deep_view(), from as int),
{
    let ghost all = calls.deep_view();
    let mut r: Vec<AgentToolCall> = Vec::new();
    let mut i: usize = 0;
    while i < calls.len()
        invariant
            i <= calls@.len(),
            from <= messages@.len(),
            all == calls.deep_view(),
            r.deep_view() == unanswered(all.take(i as int), messages.deep_view(), from as int),
        decreases calls.len() - i,
    {
        let ghost head = all.take(i + 1);
        assert(head.last() == calls@[i as int]@);
        assert(head.drop_last() =~= all.take(i as int));
        if !is_answered(messages, from, calls[i].id.as_str()) {
            let ghost before = r.deep_view();
            r.push(calls[i].clone());
            assert(r.deep_view() =~= before.push(calls@[i as int]@));
        }
        i += 1;
    }
    assert(all.take(i as int) =~= all);
    r
}

// ---------------------------------------------------------------------------------------------
// The machine
// ---------------------------------------------------------------------------------------------

/// The loop at its start: calls left unanswered come first.
pub open spec fn started(
    tools: Seq<(Seq<char>, AgentToolKind)>,
    max_rounds: nat,
    cap: Option<nat>,
    messages: Seq<MessageView>,
    resume: Option<Seq<char>>,
) -> LoopView {
    LoopView {
        tools,
        max_rounds,
        cap,
        messages,
        cost: 0,
        final_text: Seq::empty(),
        last_usage: None,
        context: None,
        sources: Seq::empty(),
        round: 0,
        resume,
        phase: if pending_calls(messages).len() > 0 {
            LoopPhase::Tools
        } else {
            LoopPhase::Ready
        },
        stop_reason: None,
        text: Seq::empty(),
        calls: Seq::empty(),
        reason: FinishReason::Complete,
        queue: pending_calls(messages),
        exclusive: interaction_of(tools, last_calls(messages)),
        pending: true,
    }
}

/// The loop, stopped.
pub open spec fn finished(m: LoopView, why: AgentStopReason) -> LoopView {
    LoopView { phase: LoopPhase::Finished, stop_reason: Some(why), ..m }
}

/// What is left of the budget; nothing where there is no budget.
pub open spec fn remaining(m: LoopView) -> Option<nat> {
    match m.cap {
        Some(cap) => Some(
            if cap > m.cost {
                (cap - m.cost) as nat
            } else {
                0
            },
        ),
        None => None,
    }
}

/// The loop after it was asked for its next round.
pub open spec fn round_started(m: LoopView, cancelled: bool) -> LoopView {
    if m.round >= m.max_rounds {
        finished(m, AgentStopReason::MaxRounds)
    } else if cancelled {
        finished(LoopView { round: m.round + 1, ..m }, AgentStopReason::Aborted)
    } else if remaining(m) == Some(0nat) {
        finished(m, AgentStopReason::BudgetExhausted)
    } else {
        LoopView {
            phase: LoopPhase::Streaming,
            resume: None,
            text: Seq::empty(),
            calls: Seq::empty(),
            reason: FinishReason::Complete,
            ..m
        }
    }
}

/// The loop after an event of the completion. `share` is how much of the context window the usage
/// of the event fills.
pub open spec fn received(
    m: LoopView,
    event: GenerationStreamEvent,
    share: Option<ContextShare>,
) -> LoopView {
    match event {
        GenerationStreamEvent::Delta { text } => LoopView { text: m.text + text@, ..m },
        GenerationStreamEvent::Citation { url, title, content } => if cited(m.sources, url@) {
            m
        } else {
            LoopView {
                sources: m.sources.push(
                    CitationView { url: url@, title: title@, content: content.deep_view() },
                ),
                ..m
            }
        },
        GenerationStreamEvent::ToolCall { tool_call_id, tool_name, args } => LoopView {
            calls: m.calls.push(
                CallView { id: tool_call_id@, name: tool_name@, arguments: args@ },
            ),
            ..m
        },
        GenerationStreamEvent::Done { message_id: _, usage, cost_micro, finish_reason } => LoopView {
            reason: finish_reason,
            context: if usage is Some {
                share
            } else {
                m.context
            },
            last_usage: if usage is Some {
                usage
            } else {
                m.last_usage
            },
            cost: m.cost + cost_of(event),
            ..m
        },
        _ => m,
    }
}

/// What an event of the completion costs.
pub open spec fn cost_of(event: GenerationStreamEvent) -> nat {
    match event {
        GenerationStreamEvent::Done { cost_micro: Some(c), .. } => c as nat,
        _ => 0,
    }
}

/// What the loop reports of an event of the completion.
pub open spec fn reported(
    m: LoopView,
    event: GenerationStreamEvent,
    share: Option<ContextShare>,
) -> Seq<EventView> {
    match event {
        GenerationStreamEvent::Delta { text } => seq![EventView::Delta(text@)],
        GenerationStreamEvent::Reasoning { text } => seq![EventView::Reasoning(text@)],
        GenerationStreamEvent::Citation { url, title, content } => if cited(m.sources, url@) {
            Seq::empty()
        } else {
            seq![
                EventView::Citation(
                    CitationView { url: url@, title: title@, content: content.deep_view() },
                ),
            ]
        },
        GenerationStreamEvent::Done { message_id: _, usage, cost_micro, finish_reason: _ } => {
            let first = match usage {
                Some(u) => seq![EventView::RoundUsage(u, share)],
                None => Seq::empty(),
            };
            match cost_micro {
                Some(c) => first.push(EventView::RoundCost(c as nat, m.cost + c as nat)),
                None => first,
            }
        },
        _ => Seq::empty(),
    }
}

/// The loop after the end of the completion.
pub open spec fn stream_ended(m: LoopView, cancelled: bool) -> LoopView {
    let read = LoopView {
        final_text: if m.text.len() > 0 {
            m.text
        } else {
            m.final_text
        },
        round: m.round + 1,
        text: Seq::empty(),
        calls: Seq::empty(),
        ..m
    };
    let plain = LoopView { messages: m.messages.push(MessageView::Assistant(m.text, None)), ..read };
    if cancelled {
        finished(plain, AgentStopReason::Aborted)
    } else if m.reason == FinishReason::Stopped {
        finished(plain, AgentStopReason::Stopped)
    } else if m.reason == FinishReason::Complete || m.calls.len() == 0 {
        finished(plain, AgentStopReason::Complete)
    } else {
        LoopView {
            messages: m.messages.push(MessageView::Assistant(m.text, Some(m.calls))),
            phase: LoopPhase::Tools,
            queue: m.calls,
            exclusive: interaction_of(m.tools, m.calls),
            pending: false,
            ..read
        }
    }
}

/// The loop after the first call that waits was answered.
pub open spec fn call_answered(m: LoopView, content: Seq<char>) -> LoopView {
    LoopView {
        messages: m.messages.push(MessageView::Tool(m.queue[0].id, content)),
        queue: m.queue.skip(1),
        ..m
    }
}

/// The loop after it was said whether the call that waits first may run: a call that may not is
/// answered with the reason, one that may still waits.
pub open spec fn judged(m: LoopView, verdict: Result<bool, Seq<char>>) -> LoopView {
    match verdict {
        Ok(true) => m,
        Ok(false) => call_answered(m, denied_text()),
        Err(e) => call_answered(m, failed_text(e)),
    }
}

/// The loop after all calls were answered.
pub open spec fn settled(m: LoopView) -> LoopView {
    if m.pending {
        LoopView { phase: LoopPhase::Ready, ..m }
    } else if m.cap is Some && m.cost >= m.cap->0 {
        finished(m, AgentStopReason::BudgetExhausted)
    } else if m.context is Some && m.context->0.at_limit {
        finished(m, AgentStopReason::ContextLimit)
    } else {
        LoopView { phase: LoopPhase::Ready, ..m }
    }
}

/// What comes of asking for the next round.
#[derive(Debug, PartialEq, Eq)]
pub enum RoundStep {
    /// The loop has stopped.
    Finish,
    /// A generation is to be taken up again, or a completion is to be asked for that may cost up to
    /// the given bound.
    Generate { resume: Option<String>, max_cost_micro: Option<u64> },
}

/// What is kept of the loop at a certain point.
#[derive(Debug, Clone, PartialEq, Eq)]
pub struct AgentLoopCheckpoint {
    pub phase: String,
    pub messages: Vec<AgentMessage>,
    pub rounds: u32,
    pub cost_micro: u64,
    pub active_generation_id: Option<String>,
    pub last_usage: Option<TokenUsage>,
    pub context: Option<ContextShare>,
    pub stop_reason: Option<AgentStopReason>,
}

/// What the loop hands back.
#[derive(Debug, Clone, PartialEq, Eq)]
pub struct AgentLoopResult {
    pub messages: Vec<AgentMessage>,
    pub final_text: String,
    pub rounds: u32,
    pub cost_micro: u64,
    pub last_usage: Option<TokenUsage>,
    pub context: Option<ContextShare>,
    pub stop_reason: AgentStopReason,
    pub sources: Vec<SourceCitation>,
}

impl AgentLoop {
    /// Starts the loop.
    pub fn new(options: AgentLoopOptions) -> (r: Self)
        ensures
            r.wf(),
            r.settings == options.settings,
            r@ == started(
                tool_kinds(options.settings.tools@),
                options.settings.max_rounds as nat,
                nat_of(options.settings.max_credits_micro),
                options.messages.deep_view(),
                options.resume_generation_id.deep_view(),
            ),
    {
        let AgentLoopOptions { settings, messages, resume_generation_id } = options;
        let from = after_last_calls(&messages);
        let mut queue: Vec<AgentToolCall> = Vec::new();
        let mut exclusive: Option<String> = None;
        proof {
            last_call_index_bounds(messages.deep_view());
        }
        if from > 0 {
            assert(messages.deep_view()[from - 1] == messages@[from - 1]@);
            if let AgentMessage::Assistant { tool_calls: Some(calls), .. } = &messages[from - 1] {
                queue = unanswered_calls(calls, &messages, from);
                exclusive = interaction_call_id(&settings.tools, calls);
            }
        }
        let phase = if queue.len() > 0 {
            LoopPhase::Tools
        } else {
            LoopPhase::Ready
        };
        let r = AgentLoop {
            settings,
            messages,
            cost_micro: 0,
            final_text: String::new(),
            last_usage: None,
            context: None,
            sources: Vec::new(),
            round: 0,
            resume: resume_generation_id,
            phase,
            stop_reason: None,
            text: String::new(),
            calls: Vec::new(),
            reason: FinishReason::Complete,
            queue,
            next: 0,
            exclusive,
            pending: true,
        };
        assert(r.queue.deep_view().skip(0) =~= r.queue.deep_view());
        r
    }

    /// Asks for the next round.
    pub fn start_round(&mut self, cancelled: bool) -> (r: RoundStep)
        requires
            old(self).wf(),
            old(self).phase == LoopPhase::Ready,
        ensures
            final(self).wf(),
            final(self).settings == old(self).settings,
            final(self)@ == round_started(old(self)@, cancelled),
            match r {
                RoundStep::Finish => final(self).phase == LoopPhase::Finished,
                RoundStep::Generate { resume, max_cost_micro } => {
                    &&& final(self).phase == LoopPhase::Streaming
                    &&& resume.deep_view() == old(self)@.resume
                    &&& nat_of(max_cost_micro) == remaining(old(self)@)
                },
            },
    {
        if self.round >= self.settings.max_rounds {
            self.phase = LoopPhase::Finished;
            self.stop_reason = Some(AgentStopReason::MaxRounds);
            return RoundStep::Finish;
        }
        if cancelled {
            self.round = self.round + 1;
            self.phase = LoopPhase::Finished;
            self.stop_reason = Some(AgentStopReason::Aborted);
            return RoundStep::Finish;
        }
        let mut max_cost_micro: Option<u64> = None;
        if let Some(cap) = self.settings.max_credits_micro {
            if cap <= self.cost_micro {
                self.phase = LoopPhase::Finished;
                self.stop_reason = Some(AgentStopReason::BudgetExhausted);
                return RoundStep::Finish;
            }
            max_cost_micro = Some(cap - self.cost_micro);
        }
        self.phase = LoopPhase::Streaming;
        self.text = String::new();
        self.calls = Vec::new();
        self.reason = FinishReason::Complete;
        let mut resume: Option<String> = None;
        core::mem::swap(&mut self.resume, &mut resume);
        RoundStep::Generate { resume, max_cost_micro }
    }

    /// Whether a citation of an address is among the sources.
    fn has_source(&self, url: &str) -> (r: bool)
        ensures
            r == cited(self.sources.deep_view(), url@),
    {
        let ghost all = self.sources.deep_view();
        let mut i: usize = 0;
        while i < self.sources.len()
            invariant
                i <= self.sources@.len(),
                all == self.sources.deep_view(),
                forall|k: int| 0 <= k < i ==> (#[trigger] all[k]).url != url@,
            decreases self.sources.len() - i,
        {
            assert(all[i as int] == self.sources@[i as int]@);
            if same(self.sources[i].url.as_str(), url) {
                return true;
            }
            i += 1;
        }
        false
    }

    /// Takes an event of the completion. `share` is how much of the context window the usage of the
    /// event fills. An event that is an error ends the loop with it.
    pub fn receive(
        &mut self,
        event: GenerationStreamEvent,
        share: Option<ContextShare>,
    ) -> (r: Result<Vec<AgentLoopEvent>, AgentLoopError>)
        requires
            old(self).wf(),
            old(self).phase == LoopPhase::Streaming,
            old(self).cost_micro + cost_of(event) <= u64::MAX,
        ensures
            final(self).wf(),
            final(self).settings == old(self).settings,
            final(self)@ == received(old(self)@, event, share),
            match r {
                Ok(events) => !(event is Error) && events.deep_view() == reported(
                    old(self)@,
                    event,
                    share,
                ),
                Err(error) => event == (GenerationStreamEvent::Error {
                    code: error.code,
                    message: error.message,
                    retryable: error.retryable,
                }),
            },
    {
        let mut events: Vec<AgentLoopEvent> = Vec::new();
        let ghost before = self@;
        match event {
            GenerationStreamEvent::Delta { text } => {
                self.text.append(text.as_str());
                events.push(AgentLoopEvent::Delta(text));
            },
            GenerationStreamEvent::Reasoning { text } => {
                events.push(AgentLoopEvent::Reasoning(text));
            },
            GenerationStreamEvent::Citation { url, title, content } => {
                if !self.has_source(url.as_str()) {
                    let citation = SourceCitation { url, title, content };
                    events.push(AgentLoopEvent::Citation(citation.clone()));
                    self.sources.push(citation);
                    assert(self.sources.deep_view() =~= before.sources.push(citation@));
                }
            },
            GenerationStreamEvent::ToolCall { tool_call_id, tool_name, args } => {
                let call = AgentToolCall { id: tool_call_id, name: tool_name, arguments: args };
                self.calls.push(call);
                assert(self.calls.deep_view() =~= before.calls.push(call@));
            },
            GenerationStreamEvent::Done { message_id: _, usage, cost_micro, finish_reason } => {
                self.reason = finish_reason;
                if let Some(u) = usage {
                    self.context = share;
                    events.push(AgentLoopEvent::RoundUsage(u, share));
                    self.last_usage = Some(u);
                }
                if let Some(c) = cost_micro {
                    self.cost_micro = self.cost_micro + c;
                    events.push(AgentLoopEvent::RoundCost(c, self.cost_micro));
                }
            },
            GenerationStreamEvent::Error { code, message, retryable } => {
                return Err(AgentLoopError::new(code, message, retryable));
            },
            GenerationStreamEvent::ToolResult { .. } => {},
        }
        assert(events.deep_view() =~= reported(before, event, share));
        Ok(events)
    }

    /// Takes the end of the completion.
    pub fn end_stream(&mut self, cancelled: bool)
        requires
            old(self).wf(),
            old(self).phase == LoopPhase::Streaming,
        ensures
            final(self).wf(),
            final(self).settings == old(self).settings,
            final(self)@ == stream_ended(old(self)@, cancelled),
    {
        let mut text = String::new();
        core::mem::swap(&mut self.text, &mut text);
        let mut calls: Vec<AgentToolCall> = Vec::new();
        core::mem::swap(&mut self.calls, &mut calls);
        let ghost before = old(self)@;
        self.round = self.round + 1;
        if chars_of(text.as_str()).len() > 0 {
            self.final_text = text.clone();
        }
        if cancelled || self.reason == FinishReason::Stopped || self.reason
            == FinishReason::Complete || calls.len() == 0 {
            let message = AgentMessage::Assistant { content: text, tool_calls: None };
            self.messages.push(message);
            assert(self.messages.deep_view() =~= before.messages.push(message@));
            self.phase = LoopPhase::Finished;
            self.stop_reason = Some(
                if cancelled {
                    AgentStopReason::Aborted
                } else if self.reason == FinishReason::Stopped {
                    AgentStopReason::Stopped
                } else {
                    AgentStopReason::Complete
                },
            );
            return ;
        }
        self.exclusive = interaction_call_id(&self.settings.tools, &calls);
        self.queue = copy_calls(&calls);
        self.next = 0;
        self.pending = false;
        self.phase = LoopPhase::Tools;
        let message = AgentMessage::Assistant { content: text, tool_calls: Some(calls) };
        self.messages.push(message);
        assert(self.messages.deep_view() =~= before.messages.push(message@));
        assert(self.queue.deep_view().skip(0) =~= before.calls);
    }

    /// The call that waits first.
    pub fn next_call(&self) -> (r: Option<&AgentToolCall>)
        requires
            self.wf(),
        ensures
            match r {
                Some(call) => self@.queue.len() > 0 && call@ == self@.queue[0],
                None => self@.queue.len() == 0,
            },
    {
        if self.next < self.queue.len() {
            assert(self@.queue[0] == self.queue@[self.next as int]@);
            Some(&self.queue[self.next])
        } else {
            None
        }
    }

    /// What is to be done for the call that waits first, where `parsed` is its arguments read as
    /// JSON.
    pub fn plan_next(&self, parsed: Option<Json>) -> (r: CallPlan)
        requires
            self.wf(),
            self@.queue.len() > 0,
        ensures
            r@ == planned(self@.tools, self@.exclusive, self@.queue[0], parsed.deep_view()),
    {
        assert(self@.queue[0] == self.queue@[self.next as int]@);
        plan_call(&self.settings.tools, &self.exclusive, &self.queue[self.next], parsed)
    }

    /// What is to be done for the call that waits first.
    pub fn plan(&self) -> (r: CallPlan)
        requires
            self.wf(),
            self@.queue.len() > 0,
        ensures
            r@ == planned(
                self@.tools,
                self@.exclusive,
                self@.queue[0],
                json_in(self@.queue[0].arguments),
            ),
    {
        assert(self@.queue[0] == self.queue@[self.next as int]@);
        self.plan_next(parse_json(self.queue[self.next].arguments.as_str()))
    }

    /// Answers the call that waits first.
    pub fn answer(&mut self, content: String)
        requires
            old(self).wf(),
            old(self)@.queue.len() > 0,
        ensures
            final(self).wf(),
            final(self).settings == old(self).settings,
            final(self)@ == call_answered(old(self)@, content@),
    {
        let ghost before = self@;
        assert(self@.queue[0] == self.queue@[self.next as int]@);
        let id = self.queue[self.next].id.clone();
        let message = AgentMessage::Tool { tool_call_id: id, content };
        self.messages.push(message);
        assert(self.next < self.queue.len());
        self.next = self.next + 1;
        assert(self.messages.deep_view() =~= before.messages.push(message@));
        assert(self@.queue =~= before.queue.skip(1));
    }

    /// Takes what came of asking whether the call that waits first may run: `Err` where it could
    /// not be said what permission it needs. Says whether the call is to run; one that is not is
    /// answered with the reason.
    pub fn authorized(&mut self, verdict: Result<bool, String>) -> (r: bool)
        requires
            old(self).wf(),
            old(self)@.queue.len() > 0,
        ensures
            final(self).wf(),
            final(self).settings == old(self).settings,
            r == (verdict == Ok::<bool, String>(true)),
            final(self)@ == judged(
                old(self)@,
                match verdict {
                    Ok(allowed) => Ok(allowed),
                    Err(e) => Err(e@),
                },
            ),
    {
        match verdict {
            Ok(true) => true,
            Ok(false) => {
                self.answer(permission_denied());
                false
            },
            Err(e) => {
                self.answer(authorization_failed(e.as_str()));
                false
            },
        }
    }

    /// Goes on once all calls are answered.
    pub fn settle(&mut self)
        requires
            old(self).wf(),
            old(self).phase == LoopPhase::Tools,
            old(self)@.queue.len() == 0,
        ensures
            final(self).wf(),
            final(self).settings == old(self).settings,
            final(self)@ == settled(old(self)@),
    {
        if !self.pending {
            if let Some(cap) = self.settings.max_credits_micro {
                if self.cost_micro >= cap {
                    self.phase = LoopPhase::Finished;
                    self.stop_reason = Some(AgentStopReason::BudgetExhausted);
                    return ;
                }
            }
            if let Some(share) = self.context {
                if share.at_limit {
                    self.phase = LoopPhase::Finished;
                    self.stop_reason = Some(AgentStopReason::ContextLimit);
                    return ;
                }
            }
        }
        self.phase = LoopPhase::Ready;
    }

    /// The completion to ask for in a round that may cost up to a bound.
    pub fn request(&self, max_cost_micro: Option<u64>) -> (r: AgentCompletionRequest)
        ensures
            r.model@ == self.settings.model@,
            r.messages.deep_view() == self@.messages,
            r.tools.deep_view() == definitions(self.settings.tools@),
            r.web_search == if self.settings.web_search {
                Some(true)
            } else {
                None
            },
            r.session_id.deep_view() == self.settings.session_id.deep_view(),
            match r.cache_control {
                Some(c) => self.settings.cache_control && c.kind@ == "ephemeral"@,
                None => !self.settings.cache_control,
            },
            r.max_output_tokens == self.settings.max_output_tokens,
            r.max_cost_micro == max_cost_micro,
            r.temperature_bits == self.settings.temperature_bits,
    {
        let mut tools: Vec<AgentToolDefinition> = Vec::new();
        let mut i: usize = 0;
        while i < self.settings.tools.len()
            invariant
                i <= self.settings.tools@.len(),
                tools@.len() == i,
                forall|k: int|
                    0 <= k < i ==> (#[trigger] tools@[k])@ == self.settings.tools@[k].definition@,
            decreases self.settings.tools.len() - i,
        {
            tools.push(self.settings.tools[i].definition.clone());
            i += 1;
        }
        assert(tools.deep_view() =~= definitions(self.settings.tools@));
        AgentCompletionRequest {
            model: self.settings.model.clone(),
            messages: copy_messages(&self.messages),
            tools,
            web_search: if self.settings.web_search {
                Some(true)
            } else {
                None
            },
            session_id: match &self.settings.session_id {
                Some(id) => Some(id.clone()),
                None => None,
            },
            cache_control: if self.settings.cache_control {
                Some(CacheControl::default())
            } else {
                None
            },
            max_output_tokens: self.settings.max_output_tokens,
            max_cost_micro,
            temperature_bits: self.settings.temperature_bits,
        }
    }

    /// What is kept of the loop at a point of the given name, with the generation that runs.
    pub fn checkpoint(&self, phase: &str, active: Option<String>) -> (r: AgentLoopCheckpoint)
        ensures
            r.phase@ == phase@,
            r.messages.deep_view() == self@.messages,
            r.rounds == self.round,
            r.cost_micro == self.cost_micro,
            r.active_generation_id == active,
            r.last_usage == self.last_usage,
            r.context == self.context,
            r.stop_reason == self.stop_reason,
    {
        AgentLoopCheckpoint {
            phase: phase.to_owned(),
            messages: copy_messages(&self.messages),
            rounds: self.round,
            cost_micro: self.cost_micro,
            active_generation_id: active,
            last_usage: self.last_usage,
            context: self.context,
            stop_reason: self.stop_reason,
        }
    }

    /// What the loop hands back once it has stopped.
    pub fn into_result(self) -> (r: AgentLoopResult)
        requires
            self.wf(),
            self.phase == LoopPhase::Finished,
        ensures
            r.messages == self.messages,
            r.final_text == self.final_text,
            r.rounds == self.round,
            r.cost_micro == self.cost_micro,
            r.last_usage == self.last_usage,
            r.context == self.context,
            Some(r.stop_reason) == self.stop_reason,
            r.sources == self.sources,
    {
        assert(self@.stop_reason is Some);
        let stop_reason = match self.stop_reason {
            Some(why) => why,
            None => AgentStopReason::Complete,
        };
        AgentLoopResult {
            messages: self.messages,
            final_text: self.final_text,
            rounds: self.round,
            cost_micro: self.cost_micro,
            last_usage: self.last_usage,
            context: self.context,
            stop_reason,
            sources: self.sources,
        }
    }
}

/// The definitions of tools.
pub open spec fn definitions(tools: Seq<LoopTool>) -> Seq<DefinitionView> {
    tools.map_values(|t: LoopTool| t.definition@)
}

// ---------------------------------------------------------------------------------------------
// Laws
// ---------------------------------------------------------------------------------------------

/// No step of the loop takes a message back or changes one.
pub proof fn transcript_only_grows(
    m: LoopView,
    event: GenerationStreamEvent,
    share: Option<ContextShare>,
    cancelled: bool,
    content: Seq<char>,
)
    ensures
        round_started(m, cancelled).messages == m.messages,
        received(m, event, share).messages == m.messages,
        settled(m).messages == m.messages,
        m.messages.is_prefix_of(stream_ended(m, cancelled).messages),
        m.messages.is_prefix_of(call_answered(m, content).messages),
        stream_ended(m, cancelled).messages.len() == m.messages.len() + 1,
        call_answered(m, content).messages.len() == m.messages.len() + 1,
{
}

/// The cost never falls, and it rises by what the events of the completions cost and by nothing
/// else.
pub proof fn cost_is_what_completions_cost(
    m: LoopView,
    event: GenerationStreamEvent,
    share: Option<ContextShare>,
    cancelled: bool,
    content: Seq<char>,
)
    ensures
        received(m, event, share).cost == m.cost + cost_of(event),
        round_started(m, cancelled).cost == m.cost,
        stream_ended(m, cancelled).cost == m.cost,
        call_answered(m, content).cost == m.cost,
        settled(m).cost == m.cost,
{
}

/// A completion is asked for only while a round and credits are left and nobody has cancelled, and
/// it may cost no more than what is left.
pub proof fn rounds_start_within_the_budget(m: LoopView, cancelled: bool)
    requires
        m.phase == LoopPhase::Ready,
    ensures
        round_started(m, cancelled).phase == LoopPhase::Streaming <==> {
            &&& m.round < m.max_rounds
            &&& !cancelled
            &&& (m.cap is Some ==> m.cost < m.cap->0)
        },
        m.cap is Some && round_started(m, cancelled).phase == LoopPhase::Streaming ==> m.cost
            + remaining(m)->0 == m.cap->0,
{
}

/// A loop whose budget is spent starts no round, whether the spending shows after the calls of a
/// round or before the next.
pub proof fn spent_budget_stops_the_loop(m: LoopView)
    requires
        m.phase == LoopPhase::Tools,
        !m.pending,
        m.cap is Some,
        m.cost >= m.cap->0,
    ensures
        settled(m).phase == LoopPhase::Finished,
        settled(m).stop_reason == Some(AgentStopReason::BudgetExhausted),
{
}

/// No address is cited twice.
pub proof fn sources_stay_distinct(
    m: LoopView,
    event: GenerationStreamEvent,
    share: Option<ContextShare>,
)
    requires
        distinct_urls(m.sources),
    ensures
        distinct_urls(received(m, event, share).sources),
        m.sources.is_prefix_of(received(m, event, share).sources),
{
}

/// The loop after its waiting calls were answered one after the other.
pub open spec fn all_answered(m: LoopView, contents: Seq<Seq<char>>) -> LoopView
    decreases contents.len(),
{
    if contents.len() == 0 {
        m
    } else {
        all_answered(call_answered(m, contents[0]), contents.skip(1))
    }
}

/// The messages that answer calls.
pub open spec fn answers(calls: Seq<CallView>, contents: Seq<Seq<char>>) -> Seq<MessageView> {
    Seq::new(calls.len(), |i: int| MessageView::Tool(calls[i].id, contents[i]))
}

/// Every call is answered by one message, in the order of the calls.
pub proof fn every_call_is_answered_in_order(m: LoopView, contents: Seq<Seq<char>>)
    requires
        contents.len() == m.queue.len(),
    ensures
        all_answered(m, contents) == (LoopView {
            messages: m.messages + answers(m.queue, contents),
            queue: Seq::empty(),
            ..m
        }),
    decreases contents.len(),
{
    if contents.len() > 0 {
        let next = call_answered(m, contents[0]);
        every_call_is_answered_in_order(next, contents.skip(1));
        assert(next.messages + answers(next.queue, contents.skip(1)) =~= m.messages + answers(
            m.queue,
            contents,
        ));
    } else {
        assert(m.messages + answers(m.queue, contents) =~= m.messages);
        assert(m.queue =~= Seq::empty());
    }
}

/// Where a call asks the user, no other call runs: each of the others is answered that it was put
/// off.
pub proof fn only_the_question_runs(
    tools: Seq<(Seq<char>, AgentToolKind)>,
    calls: Seq<CallView>,
    i: int,
    parsed: Option<JsonView>,
)
    requires
        0 <= i < calls.len(),
        interaction_of(tools, calls) is Some,
        calls[i].id != interaction_of(tools, calls)->0,
    ensures
        planned(tools, interaction_of(tools, calls), calls[i], parsed) == PlanView::Answer(
            deferred_text(),
        ),
{
}

/// The call that keeps the others from running is one of the calls, and its tool asks the user; it
/// is the first such call.
pub proof fn interaction_is_the_first_question(
    tools: Seq<(Seq<char>, AgentToolKind)>,
    calls: Seq<CallView>,
)
    ensures
        match interaction_of(tools, calls) {
            Some(id) => exists|i: int|
                {
                    &&& 0 <= i < calls.len()
                    &&& (#[trigger] calls[i]).id == id
                    &&& kind_of(tools, calls[i].name) == Some(AgentToolKind::Interact)
                    &&& forall|j: int|
                        0 <= j < i ==> kind_of(tools, (#[trigger] calls[j]).name) != Some(
                            AgentToolKind::Interact,
                        )
                },
            None => forall|j: int|
                0 <= j < calls.len() ==> kind_of(tools, (#[trigger] calls[j]).name) != Some(
                    AgentToolKind::Interact,
                ),
        },
    decreases calls.len(),
{
    if calls.len() > 0 && kind_of(tools, calls[0].name) != Some(AgentToolKind::Interact) {
        let rest = calls.skip(1);
        interaction_is_the_first_question(tools, rest);
        match interaction_of(tools, rest) {
            Some(id) => {
                let k = choose|i: int|
                    {
                        &&& 0 <= i < rest.len()
                        &&& (#[trigger] rest[i]).id == id
                        &&& kind_of(tools, rest[i].name) == Some(AgentToolKind::Interact)
                        &&& forall|j: int|
                            0 <= j < i ==> kind_of(tools, (#[trigger] rest[j]).name) != Some(
                                AgentToolKind::Interact,
                            )
                    };
                assert(calls[k + 1] == rest[k]);
                assert forall|j: int| 0 <= j < k + 1 implies kind_of(
                    tools,
                    (#[trigger] calls[j]).name,
                ) != Some(AgentToolKind::Interact) by {
                    if j > 0 {
                        assert(rest[j - 1] == calls[j]);
                    }
                }
            },
            None => {
                assert forall|j: int| 0 <= j < calls.len() implies kind_of(
                    tools,
                    (#[trigger] calls[j]).name,
                ) != Some(AgentToolKind::Interact) by {
                    if j > 0 {
                        assert(rest[j - 1] == calls[j]);
                    }
                }
            },
        }
    } else if calls.len() > 0 {
        assert(calls[0].id == interaction_of(tools, calls)->0);
    }
}

/// A tool that edits files or runs commands never runs without permission.
pub proof fn changes_need_permission(
    tools: Seq<(Seq<char>, AgentToolKind)>,
    exclusive: Option<Seq<char>>,
    call: CallView,
    parsed: Option<JsonView>,
)
    ensures
        planned(tools, exclusive, call, parsed) is Run ==> (kind_of(tools, call.name) == Some(
            AgentToolKind::Read,
        ) || kind_of(tools, call.name) == Some(AgentToolKind::Interact)),
{
}

proof fn unanswered_is_empty(calls: Seq<CallView>, messages: Seq<MessageView>, from: int)
    requires
        forall|i: int| 0 <= i < calls.len() ==> answered(messages, from, (#[trigger] calls[i]).id),
    ensures
        unanswered(calls, messages, from).len() == 0,
    decreases calls.len(),
{
    if calls.len() > 0 {
        assert(answered(messages, from, calls[calls.len() - 1].id));
        unanswered_is_empty(calls.drop_last(), messages, from);
    }
}

proof fn unanswered_keeps(calls: Seq<CallView>, messages: Seq<MessageView>, from: int, i: int)
    requires
        0 <= i < calls.len(),
        !answered(messages, from, calls[i].id),
    ensures
        exists|k: int|
            0 <= k < unanswered(calls, messages, from).len() && #[trigger] unanswered(
                calls,
                messages,
                from,
            )[k] == calls[i],
    decreases calls.len(),
{
    let rest = unanswered(calls.drop_last(), messages, from);
    let all = unanswered(calls, messages, from);
    if i == calls.len() - 1 {
        assert(all[rest.len() as int] == calls[i]);
    } else {
        unanswered_keeps(calls.drop_last(), messages, from, i);
        let k = choose|k: int| 0 <= k < rest.len() && #[trigger] rest[k] == calls[i];
        assert(all[k] == calls[i]);
    }
}

proof fn tool_messages_move_no_calls(messages: Seq<MessageView>, more: Seq<MessageView>)
    requires
        forall|i: int| 0 <= i < more.len() ==> (#[trigger] more[i]) is Tool,
    ensures
        last_call_index(messages + more) == last_call_index(messages),
    decreases more.len(),
{
    if more.len() == 0 {
        assert(messages + more =~= messages);
    } else {
        let all = messages + more;
        assert(all.drop_last() =~= messages + more.drop_last());
        assert(all.last() == more[more.len() - 1]);
        tool_messages_move_no_calls(messages, more.drop_last());
    }
}

/// A call that is refused does not run and is answered with the refusal; the calls behind it still
/// wait.
pub proof fn refused_calls_are_answered(m: LoopView)
    requires
        m.queue.len() > 0,
    ensures
        judged(m, Ok(false)).messages == m.messages.push(
            MessageView::Tool(m.queue[0].id, denied_text()),
        ),
        judged(m, Ok(false)).queue == m.queue.skip(1),
{
}

/// A conversation whose left-over calls were answered has none left over: taking it up again runs
/// no call twice.
pub proof fn answered_calls_do_not_run_again(messages: Seq<MessageView>, contents: Seq<Seq<char>>)
    requires
        contents.len() == pending_calls(messages).len(),
    ensures
        pending_calls(messages + answers(pending_calls(messages), contents)).len() == 0,
{
    let queue = pending_calls(messages);
    let more = answers(queue, contents);
    let all = messages + more;
    let at = last_call_index(messages);
    tool_messages_move_no_calls(messages, more);
    last_call_index_bounds(messages);
    let calls = last_calls(messages);
    assert(last_calls(all) =~= calls);
    assert forall|i: int| 0 <= i < calls.len() implies answered(
        all,
        at + 1,
        (#[trigger] calls[i]).id,
    ) by {
        if answered(messages, at + 1, calls[i].id) {
            let j = choose|j: int|
                at + 1 <= j < messages.len() && (#[trigger] messages[j]) is Tool
                    && messages[j]->Tool_0 == calls[i].id;
            assert(all[j] == messages[j]);
        } else {
            unanswered_keeps(calls, messages, at + 1, i);
            let k = choose|k: int| 0 <= k < queue.len() && #[trigger] queue[k] == calls[i];
            assert(all[messages.len() + k] == more[k]);
        }
    }
    unanswered_is_empty(calls, all, at + 1);
}

/// The loop after the events of a completion, one after the other. `shares` says of each event how
/// much of the context window its usage fills.
pub open spec fn all_received(
    m: LoopView,
    events: Seq<GenerationStreamEvent>,
    shares: Seq<Option<ContextShare>>,
) -> LoopView
    decreases events.len(),
{
    if events.len() == 0 {
        m
    } else {
        received(
            all_received(m, events.drop_last(), shares.drop_last()),
            events.last(),
            shares.last(),
        )
    }
}

/// The pieces of text that events bring, in their order.
pub open spec fn pieces_of(events: Seq<GenerationStreamEvent>) -> Seq<Seq<char>>
    decreases events.len(),
{
    if events.len() == 0 {
        Seq::empty()
    } else {
        match events.last() {
            GenerationStreamEvent::Delta { text } => pieces_of(events.drop_last()).push(text@),
            _ => pieces_of(events.drop_last()),
        }
    }
}

/// The calls that events bring, in their order.
pub open spec fn calls_of(events: Seq<GenerationStreamEvent>) -> Seq<CallView>
    decreases events.len(),
{
    if events.len() == 0 {
        Seq::empty()
    } else {
        match events.last() {
            GenerationStreamEvent::ToolCall { tool_call_id, tool_name, args } => calls_of(
                events.drop_last(),
            ).push(CallView { id: tool_call_id@, name: tool_name@, arguments: args@ }),
            _ => calls_of(events.drop_last()),
        }
    }
}

/// What events say the completion has cost.
pub open spec fn price_of(events: Seq<GenerationStreamEvent>) -> nat
    decreases events.len(),
{
    if events.len() == 0 {
        0
    } else {
        match events.last() {
            GenerationStreamEvent::Done { cost_micro: Some(c), .. } => price_of(
                events.drop_last(),
            ) + c as nat,
            _ => price_of(events.drop_last()),
        }
    }
}

/// Why events say that the completion ended: what the last of them that says so says.
pub open spec fn ending_of(events: Seq<GenerationStreamEvent>) -> Option<FinishReason>
    decreases events.len(),
{
    if events.len() == 0 {
        None
    } else {
        match events.last() {
            GenerationStreamEvent::Done { finish_reason, .. } => Some(finish_reason),
            _ => ending_of(events.drop_last()),
        }
    }
}

/// The usage that events tell of: that of the last of them that tells of any.
pub open spec fn usage_of(events: Seq<GenerationStreamEvent>) -> Option<TokenUsage>
    decreases events.len(),
{
    if events.len() == 0 {
        None
    } else {
        match events.last() {
            GenerationStreamEvent::Done { usage: Some(u), .. } => Some(u),
            _ => usage_of(events.drop_last()),
        }
    }
}

/// What the loop has gathered of a completion is what its events brought: their texts one after the
/// other, their calls in their order, the sum of their costs, and of the usages and endings the
/// last.
pub proof fn events_are_gathered(
    m: LoopView,
    events: Seq<GenerationStreamEvent>,
    shares: Seq<Option<ContextShare>>,
)
    requires
        shares.len() == events.len(),
    ensures
        ({
            let after = all_received(m, events, shares);
            &&& after.text == m.text + pieces_of(events).flatten()
            &&& after.calls == m.calls + calls_of(events)
            &&& after.cost == m.cost + price_of(events)
            &&& after.reason == match ending_of(events) {
                Some(reason) => reason,
                None => m.reason,
            }
            &&& after.last_usage == match usage_of(events) {
                Some(usage) => Some(usage),
                None => m.last_usage,
            }
            &&& after.messages == m.messages
            &&& after.final_text == m.final_text
            &&& after.round == m.round
            &&& after.phase == m.phase
            &&& after.tools == m.tools
            &&& after.queue == m.queue
            &&& after.stop_reason == m.stop_reason
        }),
    decreases events.len(),
{
    if events.len() == 0 {
        assert(m.text + pieces_of(events).flatten() =~= m.text);
        assert(m.calls + calls_of(events) =~= m.calls);
    } else {
        let before = events.drop_last();
        events_are_gathered(m, before, shares.drop_last());
        let now = all_received(m, before, shares.drop_last());
        match events.last() {
            GenerationStreamEvent::Delta { text } => {
                let pieces = pieces_of(before);
                pieces.lemma_flatten_push(text@);
                assert(now.text + text@ =~= m.text + pieces.push(text@).flatten());
            },
            GenerationStreamEvent::ToolCall { tool_call_id, tool_name, args } => {
                let call = CallView { id: tool_call_id@, name: tool_name@, arguments: args@ };
                assert((m.calls + calls_of(before)).push(call) =~= m.calls + calls_of(before).push(
                    call,
                ));
            },
            _ => {},
        }
    }
}

/// A round adds one message to the conversation: all the text that the completion streamed, in its
/// order, and its calls where they are to be run. They are run where the completion ended to have
/// them run, there are any, and nobody cancelled; else the loop stops with the reason.
pub proof fn a_round_answers_with_all_that_was_streamed(
    m: LoopView,
    events: Seq<GenerationStreamEvent>,
    shares: Seq<Option<ContextShare>>,
    cancelled: bool,
)
    requires
        shares.len() == events.len(),
        m.phase == LoopPhase::Ready,
        m.stop_reason is None,
        round_started(m, false).phase == LoopPhase::Streaming,
    ensures
        ({
            let end = stream_ended(
                all_received(round_started(m, false), events, shares),
                cancelled,
            );
            let text = pieces_of(events).flatten();
            let calls = calls_of(events);
            let runs = !cancelled && ending_of(events) == Some(FinishReason::ToolCalls)
                && calls.len() > 0;
            &&& end.messages == m.messages.push(
                MessageView::Assistant(
                    text,
                    if runs {
                        Some(calls)
                    } else {
                        None
                    },
                ),
            )
            &&& end.final_text == if text.len() > 0 {
                text
            } else {
                m.final_text
            }
            &&& end.cost == m.cost + price_of(events)
            &&& end.round == m.round + 1
            &&& runs ==> end.phase == LoopPhase::Tools && end.queue == calls && end.stop_reason
                == m.stop_reason && !end.pending
            &&& !runs ==> end.phase == LoopPhase::Finished
            &&& cancelled ==> end.stop_reason == Some(AgentStopReason::Aborted)
            &&& !cancelled && ending_of(events) == Some(FinishReason::Stopped) ==> end.stop_reason
                == Some(AgentStopReason::Stopped)
            &&& !cancelled && ending_of(events) != Some(FinishReason::Stopped) && !runs
                ==> end.stop_reason == Some(AgentStopReason::Complete)
        }),
{
    let begun = round_started(m, false);
    events_are_gathered(begun, events, shares);
    assert(begun.text + pieces_of(events).flatten() =~= pieces_of(events).flatten());
    assert(begun.calls + calls_of(events) =~= calls_of(events));
}

/// What is told of an event is what the loop keeps of it: each piece of text and each thought once,
/// each source that is new, the usage, and the cost together with the sum so far.
pub proof fn what_is_told_is_what_is_kept(
    m: LoopView,
    event: GenerationStreamEvent,
    share: Option<ContextShare>,
)
    ensures
        ({
            let told = reported(m, event, share);
            let after = received(m, event, share);
            match event {
                GenerationStreamEvent::Delta { text } => {
                    &&& told == seq![EventView::Delta(text@)]
                    &&& after.text.len() == m.text.len() + text@.len()
                    &&& m.text.is_prefix_of(after.text)
                    &&& after.text.skip(m.text.len() as int) == text@
                },
                GenerationStreamEvent::Reasoning { text } => told == seq![
                    EventView::Reasoning(text@),
                ] && after == m,
                GenerationStreamEvent::Citation { url, title, content } => {
                    let known = exists|i: int|
                        0 <= i < m.sources.len() && (#[trigger] m.sources[i]).url == url@;
                    let source = CitationView {
                        url: url@,
                        title: title@,
                        content: content.deep_view(),
                    };
                    &&& known ==> told.len() == 0 && after.sources == m.sources
                    &&& !known ==> told == seq![EventView::Citation(source)] && after.sources
                        == m.sources.push(source)
                },
                GenerationStreamEvent::Done { usage, cost_micro, .. } => {
                    &&& usage matches Some(u) ==> told.len() > 0 && told[0]
                        == EventView::RoundUsage(u, share) && after.last_usage == usage
                        && after.context == share
                    &&& usage is None ==> after.last_usage == m.last_usage && after.context
                        == m.context
                    &&& cost_micro matches Some(c) ==> told.len() > 0 && told.last()
                        == EventView::RoundCost(c as nat, after.cost) && after.cost == m.cost + c
                    &&& cost_micro is None ==> after.cost == m.cost
                    &&& told.len() == (if usage is Some {
                        1nat
                    } else {
                        0
                    }) + (if cost_micro is Some {
                        1nat
                    } else {
                        0
                    })
                },
                GenerationStreamEvent::ToolCall { .. } => told.len() == 0 && after.calls.len()
                    == m.calls.len() + 1 && after.text == m.text,
                GenerationStreamEvent::ToolResult { .. } => told.len() == 0 && after == m,
                GenerationStreamEvent::Error { .. } => told.len() == 0 && after == m,
            }
        }),
{
    if let GenerationStreamEvent::Delta { text } = event {
        let after = received(m, event, share);
        assert(after.text.skip(m.text.len() as int) =~= text@);
    }
}

/// A loop starts with the conversation it is given, having spent and said nothing; it first answers
/// the calls that were left over.
pub proof fn loops_start_afresh(
    tools: Seq<(Seq<char>, AgentToolKind)>,
    max_rounds: nat,
    cap: Option<nat>,
    messages: Seq<MessageView>,
    resume: Option<Seq<char>>,
)
    ensures
        ({
            let m = started(tools, max_rounds, cap, messages, resume);
            &&& m.messages == messages && m.tools == tools && m.resume == resume
            &&& m.max_rounds == max_rounds && m.cap == cap
            &&& m.cost == 0 && m.round == 0 && m.final_text.len() == 0 && m.sources.len() == 0
            &&& m.stop_reason is None && m.last_usage is None && m.context is None
            &&& m.pending
            &&& m.queue == pending_calls(messages)
            &&& m.phase == LoopPhase::Tools <==> m.queue.len() > 0
            &&& m.phase == LoopPhase::Ready <==> m.queue.len() == 0
        }),
{
}

/// Why a round is not started: no round is left, or someone cancelled, or the budget is spent; in
/// this order. A round that is started gathers from nothing, and takes up a generation only once.
pub proof fn rounds_start_or_say_why(m: LoopView, cancelled: bool)
    requires
        m.phase == LoopPhase::Ready,
        m.stop_reason is None,
    ensures
        ({
            let after = round_started(m, cancelled);
            &&& after.stop_reason == Some(AgentStopReason::MaxRounds) <==> m.round >= m.max_rounds
            &&& after.stop_reason == Some(AgentStopReason::Aborted) <==> m.round < m.max_rounds
                && cancelled
            &&& after.stop_reason == Some(AgentStopReason::BudgetExhausted) <==> m.round
                < m.max_rounds && !cancelled && m.cap is Some && m.cost >= m.cap->0
            &&& after.phase == LoopPhase::Finished <==> after.stop_reason is Some
            &&& after.phase == LoopPhase::Streaming ==> after.text.len() == 0 && after.calls.len()
                == 0 && after.resume is None && after.reason == FinishReason::Complete
                && after.round == m.round
            &&& after.final_text == m.final_text && after.sources == m.sources
        }),
{
}

/// Once its calls are answered the loop goes on, unless the budget is spent or the context window is
/// full; calls left over from an earlier run never stop it.
pub proof fn loops_go_on_unless_spent_or_full(m: LoopView)
    requires
        m.phase == LoopPhase::Tools,
        m.stop_reason is None,
    ensures
        ({
            let after = settled(m);
            let spent = m.cap is Some && m.cost >= m.cap->0;
            let full = m.context is Some && m.context->0.at_limit;
            &&& after.phase == LoopPhase::Ready <==> m.pending || !spent && !full
            &&& after.phase == LoopPhase::Finished <==> !m.pending && (spent || full)
            &&& after.stop_reason == Some(AgentStopReason::BudgetExhausted) <==> !m.pending && spent
            &&& after.stop_reason == Some(AgentStopReason::ContextLimit) <==> !m.pending && !spent
                && full
            &&& after.final_text == m.final_text && after.round == m.round
        }),
{
}

/// Of the tools of one name the last counts, and a name that no tool has stands for none.
pub proof fn the_last_tool_of_a_name_counts(
    tools: Seq<(Seq<char>, AgentToolKind)>,
    name: Seq<char>,
    i: int,
)
    requires
        -1 <= i < tools.len(),
        i >= 0 ==> tools[i].0 == name,
        forall|j: int| i < j < tools.len() ==> (#[trigger] tools[j]).0 != name,
    ensures
        i >= 0 ==> kind_of(tools, name) == Some(tools[i].1),
        i < 0 ==> kind_of(tools, name) is None,
    decreases tools.len(),
{
    if tools.len() > 0 && i < tools.len() - 1 {
        assert(tools[tools.len() - 1].0 != name);
        the_last_tool_of_a_name_counts(tools.drop_last(), name, i);
    }
}

/// A call of a tool on offer whose arguments can be read runs with those arguments: at once where
/// the tool reads or asks, and after permission where it edits or runs commands. No text stands for
/// no arguments. Another call is answered and does not run.
pub proof fn calls_run_with_their_arguments(
    tools: Seq<(Seq<char>, AgentToolKind)>,
    exclusive: Option<Seq<char>>,
    call: CallView,
    parsed: Option<JsonView>,
)
    ensures
        ({
            let plan = planned(tools, exclusive, call, parsed);
            let alone = exclusive is None || exclusive->0 == call.id;
            let kind = kind_of(tools, call.name);
            let readable = blank(call.arguments) || parsed is Some;
            let args = if blank(call.arguments) {
                JsonView::Object(Map::empty())
            } else {
                parsed->0
            };
            &&& plan is Answer <==> !alone || kind is None || !readable
            &&& alone && readable && (kind == Some(AgentToolKind::Read) || kind == Some(
                AgentToolKind::Interact,
            )) ==> plan == PlanView::Run(args)
            &&& alone && readable && (kind == Some(AgentToolKind::Edit) || kind == Some(
                AgentToolKind::Shell,
            )) ==> plan == PlanView::Authorize(args)
            &&& alone && kind is None ==> plan == PlanView::Answer("Unknown tool: "@ + call.name)
            &&& alone && kind is Some && !readable ==> plan is Answer && begins_with(
                plan->Answer_0,
                "Tool arguments were not valid JSON: "@,
            )
        }),
{
    let plan = planned(tools, exclusive, call, parsed);
    let head = "Tool arguments were not valid JSON: "@;
    if plan is Answer {
        assert((head + taken(call.arguments, 200)).take(head.len() as int) =~= head);
    }
}

/// What the model is told of a call that was judged: nothing yet where it may run, that it was
/// denied, or why it could not be judged. In the last two cases the next call is up.
pub proof fn verdicts_are_told(m: LoopView, e: Seq<char>)
    requires
        m.queue.len() > 0,
    ensures
        judged(m, Ok(true)) == m,
        judged(m, Ok(false)).messages == m.messages.push(
            MessageView::Tool(
                m.queue[0].id,
                "Permission denied for this tool call. Ask before retrying, or take another approach."@,
            ),
        ),
        judged(m, Err(e)).messages == m.messages.push(
            MessageView::Tool(m.queue[0].id, "Tool authorization failed: "@ + e),
        ),
        judged(m, Ok(false)).queue == m.queue.skip(1),
        judged(m, Err(e)).queue == m.queue.skip(1),
{
}

proof fn the_last_calls_are_found(messages: Seq<MessageView>, at: int)
    requires
        -1 <= at < messages.len(),
        at >= 0 ==> messages[at] is Assistant && messages[at]->Assistant_1 is Some,
        forall|j: int|
            at < j < messages.len() ==> !((#[trigger] messages[j]) is Assistant
                && messages[j]->Assistant_1 is Some),
    ensures
        last_call_index(messages) == at,
    decreases messages.len(),
{
    if messages.len() > 0 && at < messages.len() - 1 {
        let last = messages[messages.len() - 1];
        assert(!(last is Assistant && last->Assistant_1 is Some));
        the_last_calls_are_found(messages.drop_last(), at);
    }
}

proof fn unanswered_is_a_choice(calls: Seq<CallView>, messages: Seq<MessageView>, from: int)
    ensures
        unanswered(calls, messages, from) == calls.filter(
            |call: CallView| !answered(messages, from, call.id),
        ),
    decreases calls.len(),
{
    reveal(Seq::filter);
    if calls.len() > 0 {
        unanswered_is_a_choice(calls.drop_last(), messages, from);
    }
}

/// The calls left over are those of the last message with calls that no later message answers, in
/// their order; without such a message there are none.
pub proof fn calls_left_over_are_the_unanswered(messages: Seq<MessageView>, at: int)
    requires
        -1 <= at < messages.len(),
        at >= 0 ==> messages[at] is Assistant && messages[at]->Assistant_1 is Some,
        forall|j: int|
            at < j < messages.len() ==> !((#[trigger] messages[j]) is Assistant
                && messages[j]->Assistant_1 is Some),
    ensures
        at < 0 ==> pending_calls(messages).len() == 0,
        at >= 0 ==> pending_calls(messages) == messages[at]->Assistant_1->0.filter(
            |call: CallView|
                forall|j: int|
                    at < j < messages.len() && (#[trigger] messages[j]) is Tool
                        ==> messages[j]->Tool_0 != call.id,
        ),
{
    the_last_calls_are_found(messages, at);
    let calls = last_calls(messages);
    unanswered_is_a_choice(calls, messages, at + 1);
    if at >= 0 {
        let mine = |call: CallView| !answered(messages, at + 1, call.id);
        let said = |call: CallView|
            forall|j: int|
                at < j < messages.len() && (#[trigger] messages[j]) is Tool ==> messages[j]->Tool_0
                    != call.id;
        assert forall|call: CallView| #[trigger] mine(call) == said(call) by {
            if said(call) && answered(messages, at + 1, call.id) {
                let j = choose|j: int|
                    at + 1 <= j < messages.len() && (#[trigger] messages[j]) is Tool
                        && messages[j]->Tool_0 == call.id;
                assert(messages[j] is Tool);
            }
        }
        assert(mine =~= said);
    }
}

} // verus!
