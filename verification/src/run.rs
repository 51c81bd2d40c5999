//! One run of a prompt: the choices before the agent loop starts, what is kept while it runs, and
//! what is made of its end.
use crate::config::{CreditLimit, PermissionMode};
use crate::interaction::{ask_user_definition, ask_user_described};
use crate::json::{json_in, member, parse_json, text_in, Json, JsonView};
use crate::loop_runner::{
    ending_of, pieces_of, AgentLoopCheckpoint, AgentLoopEvent, AgentLoopResult, AgentStopReason,
    LoopTool,
};
use crate::permissions::{is_listed, listed};
use crate::storage::{copy_texts, LocalSession, SessionActivity, SessionState};
use crate::text::{
    begins_with, blank, cat2, cat3, is_blank, lines, same, split_lines, starts_with, take_chars,
    taken, texts, trim, trimmed, trimmed_is_empty_iff_blank,
};
use crate::tool::{AgentToolKind, FileChange, ToolResultMetadata};
use crate::tools::{
    bash_definition, bash_described, glob_definition, glob_described, grep_definition,
    grep_described, list_dir_definition, list_dir_described, mutation_described,
    read_file_definition, read_file_described, Mutation, MutationKind,
};
use crate::types::{
    copy_messages, AgentCompletionRequest, AgentMessage, CacheControl, DefinitionView, FinishReason,
    GenerationStreamEvent, MessageView, ModelSummary, SourceCitation,
};
use vstd::prelude::*;
use vstd::utf8::{encode_utf8, is_char_boundary};

verus! {

/// Something that went wrong without ending the run.
#[derive(Debug, Clone, PartialEq, Eq)]
pub struct RunWarning {
    pub code: String,
    pub message: String,
}

impl RunWarning {
    /// A warning.
    pub fn new(code: &str, message: String) -> (r: Self)
        ensures
            r.code@ == code@,
            r.message == message,
    {
        RunWarning { code: code.to_owned(), message }
    }
}

// ---------------------------------------------------------------------------------------------
// Models and tools
// ---------------------------------------------------------------------------------------------

/// The place of the first model of an id from a place on, one with tools where they are needed; the
/// number of models where there is none.
pub open spec fn model_index(models: Seq<ModelSummary>, id: Seq<char>, tools: bool, from: int) -> int
    decreases models.len() - from,
{
    if from < 0 || from >= models.len() {
        models.len() as int
    } else if models[from].model_id@ == id && (tools ==> models[from].supports_tools) {
        from
    } else {
        model_index(models, id, tools, from + 1)
    }
}

fn find_model(models: &Vec<ModelSummary>, id: &str, tools: bool) -> (r: usize)
    ensures
        r == model_index(models@, id@, tools, 0),
        r <= models@.len(),
{
    let mut i: usize = 0;
    while i < models.len()
        invariant
            i <= models@.len(),
            model_index(models@, id@, tools, 0) == model_index(models@, id@, tools, i as int),
        decreases models.len() - i,
    {
        if same(models[i].model_id.as_str(), id) && (!tools || models[i].supports_tools) {
            return i;
        }
        i += 1;
    }
    i
}

/// The model that a run uses: it must be on offer and support tools.
pub fn select_model<'a>(models: &'a Vec<ModelSummary>, id: &str) -> (r: Result<
    &'a ModelSummary,
    String,
>)
    ensures
        ({
            let at = model_index(models@, id@, true, 0);
            match r {
                Ok(model) => at < models@.len() && *model == models@[at],
                Err(e) => at == models@.len() && e@ == "Model "@ + id@
                    + " is unavailable or does not support tools."@,
            }
        }),
{
    let at = find_model(models, id, true);
    if at < models.len() {
        Ok(&models[at])
    } else {
        Err(cat3("Model ", id, " is unavailable or does not support tools."))
    }
}

/// The mode of a run.
pub fn run_mode(dangerous: bool, configured: PermissionMode) -> (r: PermissionMode)
    ensures
        r == if dangerous {
            PermissionMode::Yolo
        } else {
            configured
        },
{
    if dangerous {
        PermissionMode::Yolo
    } else {
        configured
    }
}

/// The tools that a run in a mode offers, and their kinds: in plan mode none that changes anything.
pub open spec fn tools_offered(mode: PermissionMode) -> Seq<(DefinitionView, AgentToolKind)> {
    let reading = seq![
        (read_file_described(), AgentToolKind::Read),
        (list_dir_described(), AgentToolKind::Read),
        (glob_described(), AgentToolKind::Read),
        (grep_described(), AgentToolKind::Read),
        (ask_user_described(), AgentToolKind::Interact),
    ];
    if mode == PermissionMode::Plan {
        reading
    } else {
        reading + seq![
            (mutation_described(MutationKind::Write), AgentToolKind::Edit),
            (mutation_described(MutationKind::Edit), AgentToolKind::Edit),
            (mutation_described(MutationKind::MultiEdit), AgentToolKind::Edit),
            (bash_described(), AgentToolKind::Shell),
        ]
    }
}

/// The tools that a run in a mode offers.
pub fn offered_tools(mode: PermissionMode) -> (r: Vec<LoopTool>)
    ensures
        r.deep_view() == tools_offered(mode),
{
    let mut r: Vec<LoopTool> = Vec::new();
    r.push(LoopTool { definition: read_file_definition(), kind: AgentToolKind::Read });
    r.push(LoopTool { definition: list_dir_definition(), kind: AgentToolKind::Read });
    r.push(LoopTool { definition: glob_definition(), kind: AgentToolKind::Read });
    r.push(LoopTool { definition: grep_definition(), kind: AgentToolKind::Read });
    r.push(LoopTool { definition: ask_user_definition(), kind: AgentToolKind::Interact });
    if mode != PermissionMode::Plan {
        let write = Mutation::new(MutationKind::Write);
        let edit = Mutation::new(MutationKind::Edit);
        let multi = Mutation::new(MutationKind::MultiEdit);
        r.push(LoopTool { definition: write.definition(), kind: AgentToolKind::Edit });
        r.push(LoopTool { definition: edit.definition(), kind: AgentToolKind::Edit });
        r.push(LoopTool { definition: multi.definition(), kind: AgentToolKind::Edit });
        r.push(LoopTool { definition: bash_definition(), kind: AgentToolKind::Shell });
    }
    assert(r.deep_view() =~= tools_offered(mode));
    r
}

/// In plan mode no tool is offered that edits files or runs commands.
pub proof fn plan_mode_offers_no_changes(i: int)
    requires
        0 <= i < tools_offered(PermissionMode::Plan).len(),
    ensures
        tools_offered(PermissionMode::Plan)[i].1 == AgentToolKind::Read || tools_offered(
            PermissionMode::Plan,
        )[i].1 == AgentToolKind::Interact,
{
}

// ---------------------------------------------------------------------------------------------
// Compaction
// ---------------------------------------------------------------------------------------------

/// The number of messages of the user.
pub open spec fn user_turns(messages: Seq<MessageView>) -> nat
    decreases messages.len(),
{
    if messages.len() == 0 {
        0
    } else {
        user_turns(messages.drop_last()) + if messages.last() is User {
            1nat
        } else {
            0
        }
    }
}

/// Whether a conversation is to be summarised before a run with a model. `fills` says whether the
/// tokens that the session used last fill four fifths of the window of the model.
pub open spec fn compaction_due(
    models: Seq<ModelSummary>,
    selected: ModelSummary,
    session: LocalSession,
    fills: bool,
) -> bool {
    let at = model_index(models, session.model@, false, 0);
    let smaller = at < models.len() && selected.context_window < models[at].context_window;
    ||| session.context is Some && session.context->0.needs_compaction
    ||| smaller && (if session.last_usage is Some {
        fills
    } else {
        user_turns(session.messages.deep_view()) > 1
    })
}

fn has_two_turns(messages: &Vec<AgentMessage>) -> (r: bool)
    ensures
        r == (user_turns(messages.deep_view()) > 1),
{
    let ghost all = messages.deep_view();
    let mut n: u8 = 0;
    let mut i: usize = 0;
    while i < messages.len()
        invariant
            i <= messages@.len(),
            all == messages.deep_view(),
            n <= 2,
            n < 2 ==> n == user_turns(all.take(i as int)),
            n == 2 ==> user_turns(all.take(i as int)) >= 2,
        decreases messages.len() - i,
    {
        let ghost head = all.take(i + 1);
        assert(head.drop_last() =~= all.take(i as int));
        assert(head.last() == messages@[i as int]@);
        if let AgentMessage::User { .. } = &messages[i] {
            if n < 2 {
                n = n + 1;
            }
        }
        i += 1;
    }
    assert(all.take(i as int) =~= all);
    n > 1
}

/// Whether a conversation is to be summarised before a run with a model. `fills` says whether the
/// tokens that the session used last fill four fifths of the window of the model.
pub fn needs_compaction(
    models: &Vec<ModelSummary>,
    selected: &ModelSummary,
    session: &LocalSession,
    fills: bool,
) -> (r: bool)
    ensures
        r == compaction_due(models@, *selected, *session, fills),
{
    if let Some(share) = session.context {
        if share.needs_compaction {
            return true;
        }
    }
    let at = find_model(models, session.model.as_str(), false);
    if at >= models.len() || selected.context_window >= models[at].context_window {
        return false;
    }
    if session.last_usage.is_some() {
        fills
    } else {
        has_two_turns(&session.messages)
    }
}

/// The model that summarises, and whether the user is warned that the settings do not name it.
pub open spec fn summariser(
    models: Seq<ModelSummary>,
    selected: ModelSummary,
    configured: Option<Seq<char>>,
) -> (ModelSummary, bool) {
    let at = match configured {
        Some(id) => model_index(models, id, false, 0),
        None => models.len() as int,
    };
    let model = if at < models.len() {
        models[at]
    } else {
        selected
    };
    (model, configured != Some(model.model_id@))
}

/// The model that summarises, and a warning where it is not the one that the settings name.
pub fn internal_model<'a>(
    models: &'a Vec<ModelSummary>,
    selected: &'a ModelSummary,
    configured: &Option<String>,
) -> (r: (&'a ModelSummary, Option<RunWarning>))
    ensures
        ({
            let (model, warned) = summariser(models@, *selected, configured.deep_view());
            &&& *r.0 == model
            &&& match r.1 {
                Some(w) => {
                    &&& warned
                    &&& w.code@ == "internal_model_fallback"@
                    &&& w.message@ == "No eligible internal_model is configured; using "@
                        + model.model_id@ + "."@
                },
                None => !warned,
            }
        }),
{
    let mut model = selected;
    let mut named = false;
    if let Some(id) = configured {
        let at = find_model(models, id.as_str(), false);
        if at < models.len() {
            model = &models[at];
        }
        named = same(id.as_str(), model.model_id.as_str());
    }
    if named {
        (model, None)
    } else {
        let message = cat3(
            "No eligible internal_model is configured; using ",
            model.model_id.as_str(),
            ".",
        );
        (model, Some(RunWarning::new("internal_model_fallback", message)))
    }
}

/// Two texts encode to the encodings of each.
pub proof fn encode_utf8_append(a: Seq<char>, b: Seq<char>)
    ensures
        encode_utf8(a + b) == encode_utf8(a) + encode_utf8(b),
    decreases a.len(),
{
    if a.len() == 0 {
        assert(a + b =~= b);
        assert(encode_utf8(a) + encode_utf8(b) =~= encode_utf8(b));
    } else {
        assert((a + b).drop_first() =~= a.drop_first() + b);
        encode_utf8_append(a.drop_first(), b);
        assert(encode_utf8(a + b) =~= encode_utf8(a) + encode_utf8(b));
    }
}

/// The bytes that are kept of an id that gets a suffix of some bytes.
pub open spec fn kept_bytes(base: nat, suffix: nat) -> nat {
    let room = if suffix < 256 {
        (256 - suffix) as nat
    } else {
        0
    };
    if base < room {
        base
    } else {
        room
    }
}

/// An id with a scope behind it, the whole kept to 256 bytes.
pub fn scoped_session_id(base: &str, scope: &str) -> (r: String)
    requires
        is_char_boundary(
            encode_utf8(base@),
            kept_bytes(encode_utf8(base@).len(), encode_utf8(":"@ + scope@).len()) as int,
        ),
    ensures
        encode_utf8(r@) == encode_utf8(base@).take(
            kept_bytes(encode_utf8(base@).len(), encode_utf8(":"@ + scope@).len()) as int,
        ) + encode_utf8(":"@ + scope@),
{
    let suffix = cat2(":", scope);
    let suffix_len = suffix.as_str().as_bytes().len();
    let base_len = base.as_bytes().len();
    let room: usize = if suffix_len < 256 {
        256 - suffix_len
    } else {
        0
    };
    let kept: usize = if base_len < room {
        base_len
    } else {
        room
    };
    let (head, _) = base.split_at(kept);
    let r = cat2(head, suffix.as_str());
    proof {
        encode_utf8_append(head@, suffix@);
        assert(encode_utf8(head@) =~= encode_utf8(base@).take(kept as int));
    }
    r
}

/// A scoped id has at most 256 bytes, if the scope leaves room.
pub proof fn scoped_ids_are_bounded(base: nat, suffix: nat)
    requires
        suffix <= 256,
    ensures
        kept_bytes(base, suffix) + suffix <= 256,
{
}

/// What a model is told to do that summarises a conversation.
pub open spec fn summary_prompt() -> Seq<char> {
    "Summarize the coding-agent session for loss-minimized continuation. Preserve user intent, decisions, constraints, files inspected or changed, commands and test outcomes, unresolved work, and exact identifiers. Do not add commentary or Markdown fences."@
}

/// The completion that summarises a conversation; or that the budget does not allow it.
pub fn compaction_request(session: &LocalSession, model: &str, limit: Option<CreditLimit>) -> (r:
    Result<AgentCompletionRequest, String>)
    requires
        is_char_boundary(
            encode_utf8(session.provider_session_id@),
            kept_bytes(
                encode_utf8(session.provider_session_id@).len(),
                encode_utf8(":"@ + "compact"@).len(),
            ) as int,
        ),
    ensures
        match r {
            Err(e) => limit is Some && !limit->0.positive && e@
                == "The session credit budget is exhausted; compaction cannot run."@,
            Ok(q) => {
                &&& limit is Some ==> limit->0.positive
                &&& q.model@ == model@
                &&& q.messages.deep_view() == seq![MessageView::System(summary_prompt())]
                    + session.messages.deep_view() + seq![
                    MessageView::User("Return only the durable continuation summary now."@),
                ]
                &&& q.tools@.len() == 0
                &&& q.web_search is None
                &&& q.session_id is Some
                &&& encode_utf8(q.session_id->0@) == encode_utf8(
                    session.provider_session_id@,
                ).take(
                    kept_bytes(
                        encode_utf8(session.provider_session_id@).len(),
                        encode_utf8(":"@ + "compact"@).len(),
                    ) as int,
                ) + encode_utf8(":"@ + "compact"@)
                &&& q.cache_control is Some && q.cache_control->0.kind@ == "ephemeral"@
                &&& q.max_output_tokens == Some(4096u32)
                &&& q.max_cost_micro == match limit {
                    Some(l) => Some(l.micro),
                    None => None,
                }
                &&& q.temperature_bits is None
            },
        },
{
    let mut max_cost_micro: Option<u64> = None;
    if let Some(l) = limit {
        if !l.positive {
            return Err(
                "The session credit budget is exhausted; compaction cannot run.".to_owned(),
            );
        }
        max_cost_micro = Some(l.micro);
    }
    let mut messages: Vec<AgentMessage> = Vec::new();
    messages.push(
        AgentMessage::system(
            "Summarize the coding-agent session for loss-minimized continuation. Preserve user intent, decisions, constraints, files inspected or changed, commands and test outcomes, unresolved work, and exact identifiers. Do not add commentary or Markdown fences.".to_owned(),
        ),
    );
    assert(messages.deep_view() =~= seq![MessageView::System(summary_prompt())]);
    append_messages(&mut messages, &session.messages, 0);
    assert(session.messages.deep_view().skip(0) =~= session.messages.deep_view());
    let ghost before = messages.deep_view();
    let last = AgentMessage::user("Return only the durable continuation summary now.".to_owned());
    messages.push(last);
    assert(messages.deep_view() =~= before.push(last@));
    Ok(
        AgentCompletionRequest {
            model: model.to_owned(),
            messages,
            tools: Vec::new(),
            web_search: None,
            session_id: Some(scoped_session_id(session.provider_session_id.as_str(), "compact")),
            cache_control: Some(CacheControl::default()),
            max_output_tokens: Some(4096),
            max_cost_micro,
            temperature_bits: None,
        },
    )
}

/// Appends copies of messages from a place on.
fn append_messages(to: &mut Vec<AgentMessage>, from: &Vec<AgentMessage>, start: usize)
    requires
        start <= from@.len(),
    ensures
        final(to).deep_view() == old(to).deep_view() + from.deep_view().skip(start as int),
{
    let ghost before = to.deep_view();
    let ghost all = from.deep_view();
    let mut i: usize = start;
    assert(before + all.subrange(start as int, start as int) =~= before);
    while i < from.len()
        invariant
            start <= i <= from@.len(),
            all == from.deep_view(),
            to.deep_view() == before + all.subrange(start as int, i as int),
        decreases from.len() - i,
    {
        let ghost now = to.deep_view();
        let message = from[i].clone();
        to.push(message);
        assert(to.deep_view() =~= now.push(message@));
        assert(message@ == all[i as int]);
        assert(to.deep_view() =~= before + all.subrange(start as int, i + 1));
        i += 1;
    }
    assert(all.subrange(start as int, i as int) =~= all.skip(start as int));
}

/// The summary of a conversation while it is read.
#[derive(Debug, PartialEq, Eq)]
pub struct SummaryStream {
    pub summary: String,
    pub cost_micro: u64,
    pub complete: bool,
}

/// The mathematical value of a [`SummaryStream`].
#[verifier::ext_equal]
pub struct SummaryView {
    pub summary: Seq<char>,
    pub cost: nat,
    pub complete: bool,
}

impl View for SummaryStream {
    type V = SummaryView;

    open spec fn view(&self) -> SummaryView {
        SummaryView {
            summary: self.summary@,
            cost: self.cost_micro as nat,
            complete: self.complete,
        }
    }
}

/// A summary after an event of its completion.
pub open spec fn summary_received(s: SummaryView, event: GenerationStreamEvent) -> SummaryView {
    match event {
        GenerationStreamEvent::Delta { text } => SummaryView { summary: s.summary + text@, ..s },
        GenerationStreamEvent::Done { message_id: _, usage: _, cost_micro, finish_reason } => {
            SummaryView {
                cost: match cost_micro {
                    Some(c) => c as nat,
                    None => 0,
                },
                complete: finish_reason == FinishReason::Complete,
                ..s
            }
        },
        _ => s,
    }
}

impl SummaryStream {
    /// Nothing was read yet.
    pub fn new() -> (r: Self)
        ensures
            r.summary@.len() == 0,
            r.cost_micro == 0,
            !r.complete,
    {
        SummaryStream { summary: String::new(), cost_micro: 0, complete: false }
    }

    /// Takes an event of the completion.
    pub fn receive(&mut self, event: GenerationStreamEvent) -> (r: Result<(), String>)
        ensures
            final(self)@ == summary_received(old(self)@, event),
            !(event is Delta) ==> final(self).summary == old(self).summary,
            match r {
                Ok(_) => !(event is Error),
                Err(e) => event matches GenerationStreamEvent::Error { message, .. } && message == e,
            },
    {
        match event {
            GenerationStreamEvent::Delta { text } => {
                self.summary.append(text.as_str());
                Ok(())
            },
            GenerationStreamEvent::Done { message_id: _, usage: _, cost_micro, finish_reason } => {
                self.cost_micro =
                match cost_micro {
                    Some(c) => c,
                    None => 0,
                };
                self.complete = finish_reason == FinishReason::Complete;
                Ok(())
            },
            GenerationStreamEvent::Error { code: _, message, retryable: _ } => Err(message),
            _ => Ok(()),
        }
    }
}

/// Whether a message instructs the model and is not an earlier summary.
pub open spec fn is_instruction(message: MessageView) -> bool {
    message is System && !begins_with(message->System_0, "[RONIN_COMPACTED_CONTEXT]"@)
}

/// The instructions among messages.
pub open spec fn instructions(messages: Seq<MessageView>) -> Seq<MessageView>
    decreases messages.len(),
{
    if messages.len() == 0 {
        Seq::empty()
    } else if is_instruction(messages.last()) {
        instructions(messages.drop_last()).push(messages.last())
    } else {
        instructions(messages.drop_last())
    }
}

/// The messages from the last one of the user on; none where there is none.
pub open spec fn last_turn(messages: Seq<MessageView>) -> Seq<MessageView>
    decreases messages.len(),
{
    if messages.len() == 0 {
        Seq::empty()
    } else if messages.last() is User {
        seq![messages.last()]
    } else {
        let before = last_turn(messages.drop_last());
        if before.len() == 0 {
            before
        } else {
            before.push(messages.last())
        }
    }
}

/// A conversation with what came before its last turn replaced by a summary.
pub open spec fn compacted(messages: Seq<MessageView>, summary: Seq<char>) -> Seq<MessageView> {
    instructions(messages).push(
        MessageView::System("[RONIN_COMPACTED_CONTEXT]\n"@ + trimmed(summary)),
    ) + last_turn(messages)
}

fn copy_instructions(messages: &Vec<AgentMessage>) -> (r: Vec<AgentMessage>)
    ensures
        r.deep_view() == instructions(messages.deep_view()),
{
    let ghost all = messages.deep_view();
    let mut r: Vec<AgentMessage> = Vec::new();
    let mut i: usize = 0;
    assert(r.deep_view() =~= Seq::empty());
    while i < messages.len()
        invariant
            i <= messages@.len(),
            all == messages.deep_view(),
            r.deep_view() == instructions(all.take(i as int)),
        decreases messages.len() - i,
    {
        let ghost head = all.take(i + 1);
        assert(head.drop_last() =~= all.take(i as int));
        assert(head.last() == messages@[i as int]@);
        if let AgentMessage::System { content } = &messages[i] {
            if !starts_with(content.as_str(), "[RONIN_COMPACTED_CONTEXT]") {
                let ghost before = r.deep_view();
                let message = messages[i].clone();
                r.push(message);
                assert(r.deep_view() =~= before.push(message@));
            }
        }
        i += 1;
    }
    assert(all.take(i as int) =~= all);
    r
}

proof fn last_turn_from(messages: Seq<MessageView>, i: int)
    requires
        0 <= i < messages.len(),
        messages[i] is User,
        forall|k: int| i < k < messages.len() ==> !((#[trigger] messages[k]) is User),
    ensures
        last_turn(messages) == messages.skip(i),
    decreases messages.len(),
{
    if i == messages.len() - 1 {
        assert(messages.skip(i) =~= seq![messages.last()]);
    } else {
        assert(messages[messages.len() - 1] == messages.last());
        last_turn_from(messages.drop_last(), i);
        assert(messages.skip(i) =~= messages.drop_last().skip(i).push(messages.last()));
    }
}

proof fn last_turn_of_none(messages: Seq<MessageView>)
    requires
        forall|k: int| 0 <= k < messages.len() ==> !((#[trigger] messages[k]) is User),
    ensures
        last_turn(messages).len() == 0,
    decreases messages.len(),
{
    if messages.len() > 0 {
        assert(messages[messages.len() - 1] == messages.last());
        last_turn_of_none(messages.drop_last());
    }
}

/// A conversation with what came before its last turn replaced by a summary.
pub fn compact_messages(messages: &Vec<AgentMessage>, summary: &str) -> (r: Vec<AgentMessage>)
    ensures
        r.deep_view() == compacted(messages.deep_view(), summary@),
{
    let ghost all = messages.deep_view();
    let mut r = copy_instructions(messages);
    let ghost first = r.deep_view();
    let note = AgentMessage::system(
        cat2("[RONIN_COMPACTED_CONTEXT]\n", trim(summary).as_str()),
    );
    r.push(note);
    assert(r.deep_view() =~= first.push(note@));
    let mut i: usize = messages.len();
    while i > 0
        invariant
            i <= messages@.len(),
            all == messages.deep_view(),
            first == instructions(all),
            r.deep_view() == first.push(note@),
            note@ == MessageView::System("[RONIN_COMPACTED_CONTEXT]\n"@ + trimmed(summary@)),
            forall|k: int| i <= k < all.len() ==> !((#[trigger] all[k]) is User),
        decreases i,
    {
        i -= 1;
        assert(all[i as int] == messages@[i as int]@);
        if let AgentMessage::User { .. } = &messages[i] {
            proof {
                last_turn_from(all, i as int);
            }
            append_messages(&mut r, messages, i);
            return r;
        }
    }
    proof {
        last_turn_of_none(all);
        assert(compacted(all, summary@) =~= first.push(note@));
    }
    r
}

/// Makes the summary that was read part of a session; or says that there is none.
pub fn finish_compaction(session: &mut LocalSession, stream: SummaryStream) -> (r: Result<
    (),
    String,
>)
    requires
        old(session).cost_micro + stream.cost_micro <= u64::MAX,
        old(session).compaction_count < u32::MAX,
    ensures
        match r {
            Err(e) => {
                &&& !stream.complete || blank(stream.summary@)
                &&& e@ == "Internal generation did not complete."@
                &&& *final(session) == *old(session)
            },
            Ok(_) => {
                &&& stream.complete && !blank(stream.summary@)
                &&& final(session).messages.deep_view() == compacted(
                    old(session).messages.deep_view(),
                    stream.summary@,
                )
                &&& *final(session) == (LocalSession {
                    messages: final(session).messages,
                    cost_micro: (old(session).cost_micro + stream.cost_micro) as u64,
                    compaction_count: (old(session).compaction_count + 1) as u32,
                    context: None,
                    last_usage: None,
                    active_generation_id: None,
                    ..*old(session)
                })
            },
        },
{
    if !stream.complete || is_blank(stream.summary.as_str()) {
        return Err("Internal generation did not complete.".to_owned());
    }
    session.messages = compact_messages(&session.messages, stream.summary.as_str());
    session.cost_micro = session.cost_micro + stream.cost_micro;
    session.compaction_count = session.compaction_count + 1;
    session.context = None;
    session.last_usage = None;
    session.active_generation_id = None;
    Ok(())
}

// ---------------------------------------------------------------------------------------------
// Before the loop
// ---------------------------------------------------------------------------------------------

/// What a run has spent since its session cost `start`.
pub open spec fn spent_since(cost: nat, start: nat) -> nat {
    if cost > start {
        (cost - start) as nat
    } else {
        0
    }
}

/// What is left of a limit where a run has cost something since its start; without a limit there is
/// no end, and nothing where it is spent.
pub open spec fn budget_left(limit: Option<nat>, cost: nat, start: nat) -> Option<Option<nat>> {
    let spent = spent_since(cost, start);
    match limit {
        None => Some(None),
        Some(most) => if spent < most {
            Some(Some((most - spent) as nat))
        } else {
            None
        },
    }
}

/// The limit in micro-credits.
pub open spec fn micro_limit(limit: Option<CreditLimit>) -> Option<nat> {
    match limit {
        Some(l) => Some(l.micro as nat),
        None => None,
    }
}

/// What is left of the budget of a run for the loop; or that summarising has spent it.
pub fn loop_budget(limit: Option<CreditLimit>, cost_micro: u64, start_cost: u64) -> (r: Result<
    Option<u64>,
    String,
>)
    ensures
        ({
            let left = budget_left(micro_limit(limit), cost_micro as nat, start_cost as nat);
            match r {
                Ok(None) => left == Some(None::<nat>),
                Ok(Some(micro)) => left == Some(Some(micro as nat)),
                Err(e) => left is None && e@
                    == "The invocation credit budget was exhausted by context compaction."@,
            }
        }),
{
    let spent: u64 = if cost_micro > start_cost {
        cost_micro - start_cost
    } else {
        0
    };
    match limit {
        None => Ok(None),
        Some(l) => if spent >= l.micro {
            Err("The invocation credit budget was exhausted by context compaction.".to_owned())
        } else {
            Ok(Some(l.micro - spent))
        },
    }
}

/// The first line of a text that is not blank, without white space around it.
pub open spec fn first_line(all: Seq<Seq<char>>) -> Option<Seq<char>>
    decreases all.len(),
{
    if all.len() == 0 {
        None
    } else if trimmed(all[0]).len() > 0 {
        Some(trimmed(all[0]))
    } else {
        first_line(all.skip(1))
    }
}

/// The title that a prompt gives a session.
pub open spec fn prompt_title(prompt: Seq<char>) -> Option<Seq<char>> {
    match first_line(lines(prompt)) {
        Some(line) => Some(taken(line, 80)),
        None => None,
    }
}

/// The title that a prompt gives a session.
pub fn title_of(prompt: &str) -> (r: Option<String>)
    ensures
        r.deep_view() == prompt_title(prompt@),
{
    let rows = split_lines(prompt);
    let ghost all = texts(rows@);
    let mut i: usize = 0;
    assert(all.skip(0) =~= all);
    while i < rows.len()
        invariant
            i <= rows@.len(),
            all == texts(rows@),
            all == lines(prompt@),
            first_line(all) == first_line(all.skip(i as int)),
        decreases rows.len() - i,
    {
        assert(all.skip(i as int)[0] == rows@[i as int]@);
        assert(all.skip(i as int).skip(1) =~= all.skip(i + 1));
        let line = trim(rows[i].as_str());
        if !line.as_str().is_empty() {
            return Some(take_chars(line.as_str(), 80));
        }
        i += 1;
    }
    None
}

/// A conversation with a prompt asked in it; a blank one leaves it as it is.
pub open spec fn asked(messages: Seq<MessageView>, prompt: Seq<char>) -> Seq<MessageView> {
    if blank(prompt) {
        messages
    } else {
        messages.push(MessageView::User(prompt))
    }
}

/// Makes a session ready for a prompt, and gives the conversation that the loop starts with. A
/// blank prompt goes on with the conversation as it is.
pub fn begin_turn(session: &mut LocalSession, prompt: &str) -> (r: Vec<AgentMessage>)
    ensures
        r.deep_view() == asked(old(session).messages.deep_view(), prompt@),
        *final(session) == (LocalSession {
            title: final(session).title,
            pending_turn_base: final(session).pending_turn_base,
            ..*old(session)
        }),
        final(session).title.deep_view() == if old(session).title is None && !blank(prompt@) {
            prompt_title(prompt@)
        } else {
            old(session).title.deep_view()
        },
        final(session).pending_turn_base == if blank(prompt@) {
            old(session).pending_turn_base
        } else {
            Some(old(session).messages@.len() as usize)
        },
{
    let mut messages = copy_messages(&session.messages);
    if !is_blank(prompt) {
        if session.title.is_none() {
            session.title = title_of(prompt);
        }
        session.pending_turn_base = Some(session.messages.len());
        let ghost before = messages.deep_view();
        let message = AgentMessage::user(prompt.to_owned());
        messages.push(message);
        assert(messages.deep_view() =~= before.push(message@));
    }
    messages
}

// ---------------------------------------------------------------------------------------------
// While the loop runs
// ---------------------------------------------------------------------------------------------

/// The mathematical value of a [`SessionActivity`].
pub struct ActivityView {
    pub id: Seq<char>,
    pub kind: Seq<char>,
    pub label: Seq<char>,
    pub detail: Seq<char>,
    pub created_at: Seq<char>,
}

/// The value of something that happened.
pub open spec fn activity_view(a: SessionActivity) -> ActivityView {
    ActivityView {
        id: a.id@,
        kind: a.kind@,
        label: a.label@,
        detail: a.detail@,
        created_at: a.created_at@,
    }
}

/// The values of what happened.
pub open spec fn activity_views(s: Seq<SessionActivity>) -> Seq<ActivityView> {
    s.map_values(|a: SessionActivity| activity_view(a))
}

/// What is kept of a turn while it runs.
#[derive(Debug, PartialEq, Eq)]
pub struct TurnRecorder {
    pub activity: Vec<SessionActivity>,
    pub changes: Vec<FileChange>,
    pub affected: Vec<String>,
    pub commands: Vec<String>,
    /// The commands that run, by the id of the call.
    pub pending: Vec<(String, String)>,
}

/// The mathematical value of a [`TurnRecorder`].
#[verifier::ext_equal]
pub struct TurnView {
    pub activity: Seq<ActivityView>,
    pub changes: Seq<FileChange>,
    pub affected: Seq<Seq<char>>,
    pub commands: Seq<Seq<char>>,
    pub pending: Seq<(Seq<char>, Seq<char>)>,
}

impl View for TurnRecorder {
    type V = TurnView;

    open spec fn view(&self) -> TurnView {
        TurnView {
            activity: activity_views(self.activity@),
            changes: self.changes@,
            affected: texts(self.affected@),
            commands: texts(self.commands@),
            pending: self.pending.deep_view(),
        }
    }
}

/// The entries of other keys.
pub open spec fn entries_without(entries: Seq<(Seq<char>, Seq<char>)>, key: Seq<char>) -> Seq<
    (Seq<char>, Seq<char>),
>
    decreases entries.len(),
{
    if entries.len() == 0 {
        Seq::empty()
    } else if entries.last().0 == key {
        entries_without(entries.drop_last(), key)
    } else {
        entries_without(entries.drop_last(), key).push(entries.last())
    }
}

/// The value of a key: that of its last entry.
pub open spec fn entry_value(entries: Seq<(Seq<char>, Seq<char>)>, key: Seq<char>) -> Option<
    Seq<char>,
>
    decreases entries.len(),
{
    if entries.len() == 0 {
        None
    } else if entries.last().0 == key {
        Some(entries.last().1)
    } else {
        entry_value(entries.drop_last(), key)
    }
}

/// The command in the arguments of a call, where `parsed` is their text read as JSON.
pub open spec fn command_in(parsed: Option<JsonView>) -> Option<Seq<char>> {
    match parsed {
        Some(value) => text_in(member(value, "command"@)),
        None => None,
    }
}

/// A turn after a call started.
pub open spec fn call_started(
    t: TurnView,
    name: Seq<char>,
    call_id: Seq<char>,
    parsed: Option<JsonView>,
) -> TurnView {
    if name == "bash"@ && command_in(parsed) is Some {
        TurnView {
            pending: entries_without(t.pending, call_id).push((call_id, command_in(parsed)->0)),
            ..t
        }
    } else {
        t
    }
}

/// Paths with the first `n` of others among them, each once.
pub open spec fn paths_added(list: Seq<Seq<char>>, more: Seq<Seq<char>>, n: int) -> Seq<Seq<char>>
    decreases n,
{
    if n <= 0 {
        list
    } else {
        let before = paths_added(list, more, n - 1);
        if listed(before, more[n - 1]) {
            before
        } else {
            before.push(more[n - 1])
        }
    }
}

/// The place of the change of a path; the number of changes where there is none.
pub open spec fn change_index(changes: Seq<FileChange>, path: Seq<char>, from: int) -> int
    decreases changes.len() - from,
{
    if from < 0 || from >= changes.len() {
        changes.len() as int
    } else if changes[from].path@ == path {
        from
    } else {
        change_index(changes, path, from + 1)
    }
}

/// Changes with another made after them: two changes of a file are one, from what the first found
/// to what the second left.
pub open spec fn change_added(changes: Seq<FileChange>, change: FileChange) -> Seq<FileChange> {
    let at = change_index(changes, change.path@, 0);
    if at < changes.len() {
        changes.update(at, FileChange { after: change.after, ..changes[at] })
    } else {
        changes.push(change)
    }
}

/// Changes with the first `n` of others made after them.
pub open spec fn changes_added(changes: Seq<FileChange>, more: Seq<FileChange>, n: int) -> Seq<
    FileChange,
>
    decreases n,
{
    if n <= 0 {
        changes
    } else {
        change_added(changes_added(changes, more, n - 1), more[n - 1])
    }
}

/// The last 500 of what happened.
pub open spec fn activity_kept(s: Seq<ActivityView>) -> Seq<ActivityView> {
    if s.len() > 500 {
        s.skip(s.len() - 500)
    } else {
        s
    }
}

/// What is kept of a call that ended.
pub open spec fn tool_activity(
    name: Seq<char>,
    output: Seq<char>,
    is_error: bool,
    call_id: Seq<char>,
    now: Seq<char>,
) -> ActivityView {
    ActivityView {
        id: call_id,
        kind: "tool"@,
        label: (if is_error {
            "Failed "@
        } else {
            "Completed "@
        }) + name,
        detail: taken(output, 24000),
        created_at: now,
    }
}

/// A turn after a call ended: what it did counts only where it did not fail.
pub open spec fn call_ended(
    t: TurnView,
    name: Seq<char>,
    output: Seq<char>,
    is_error: bool,
    call_id: Seq<char>,
    metadata: ToolResultMetadata,
    now: Seq<char>,
) -> TurnView {
    let command = entry_value(t.pending, call_id);
    let paths = texts(metadata.affected_paths@);
    TurnView {
        activity: activity_kept(
            t.activity.push(tool_activity(name, output, is_error, call_id, now)),
        ),
        changes: if is_error {
            t.changes
        } else {
            changes_added(
                t.changes,
                metadata.file_changes@,
                metadata.file_changes@.len() as int,
            )
        },
        affected: if is_error {
            t.affected
        } else {
            paths_added(t.affected, paths, paths.len() as int)
        },
        commands: if !is_error && command is Some {
            t.commands.push(command->0)
        } else {
            t.commands
        },
        pending: entries_without(t.pending, call_id),
    }
}

/// A turn after a source was cited.
pub open spec fn source_cited(
    t: TurnView,
    source: SourceCitation,
    id: Seq<char>,
    now: Seq<char>,
) -> TurnView {
    TurnView {
        activity: activity_kept(
            t.activity.push(
                ActivityView {
                    id,
                    kind: "citation"@,
                    label: source.title@,
                    detail: source.url@,
                    created_at: now,
                },
            ),
        ),
        ..t
    }
}

/// A turn after an event of the loop. `parsed` is what the arguments of a call that starts hold as
/// JSON, `id` an id for what has none, and `now` the time.
pub open spec fn recorded(
    t: TurnView,
    event: AgentLoopEvent,
    parsed: Option<JsonView>,
    id: Seq<char>,
    now: Seq<char>,
) -> TurnView {
    match event {
        AgentLoopEvent::ToolStart(name, _, call_id) => call_started(t, name@, call_id@, parsed),
        AgentLoopEvent::ToolEnd(name, output, is_error, call_id, _, metadata) => call_ended(
            t,
            name@,
            output@,
            is_error,
            call_id@,
            metadata,
            now,
        ),
        AgentLoopEvent::Citation(source) => source_cited(t, source, id, now),
        _ => t,
    }
}

impl TurnRecorder {
    /// Nothing happened yet in a turn of a session with some activity.
    pub fn new(activity: Vec<SessionActivity>) -> (r: Self)
        ensures
            r.activity == activity,
            r@ == (TurnView {
                activity: activity_views(activity@),
                changes: Seq::empty(),
                affected: Seq::empty(),
                commands: Seq::empty(),
                pending: Seq::empty(),
            }),
    {
        let r = TurnRecorder {
            activity,
            changes: Vec::new(),
            affected: Vec::new(),
            commands: Vec::new(),
            pending: Vec::new(),
        };
        assert(r.changes@ =~= Seq::empty());
        r
    }

    fn forget(&mut self, call_id: &str)
        ensures
            final(self)@ == (TurnView {
                pending: entries_without(old(self)@.pending, call_id@),
                ..old(self)@
            }),
    {
        let ghost all = self.pending.deep_view();
        let ghost before = self@;
        let mut kept: Vec<(String, String)> = Vec::new();
        let mut i: usize = 0;
        assert(kept.deep_view() =~= Seq::empty());
        while i < self.pending.len()
            invariant
                i <= self.pending@.len(),
                all == self.pending.deep_view(),
                self@ == before,
                kept.deep_view() == entries_without(all.take(i as int), call_id@),
            decreases self.pending.len() - i,
        {
            let ghost head = all.take(i + 1);
            assert(head.drop_last() =~= all.take(i as int));
            assert(head.last() == (self.pending@[i as int].0@, self.pending@[i as int].1@));
            if !same(self.pending[i].0.as_str(), call_id) {
                let ghost now = kept.deep_view();
                let entry = (self.pending[i].0.clone(), self.pending[i].1.clone());
                kept.push(entry);
                assert(kept.deep_view() =~= now.push(entry.deep_view()));
            }
            i += 1;
        }
        assert(all.take(i as int) =~= all);
        self.pending = kept;
    }

    /// Takes the start of a call, where `parsed` is its arguments read as JSON.
    pub fn start_call(&mut self, name: &str, call_id: &str, parsed: &Option<Json>)
        ensures
            final(self)@ == call_started(old(self)@, name@, call_id@, parsed.deep_view()),
    {
        if same(name, "bash") {
            if let Some(value) = parsed {
                if let Some(given) = value.get("command") {
                    if let Some(command) = given.as_str() {
                        self.forget(call_id);
                        let ghost before = self@;
                        let entry = (call_id.to_owned(), command.to_owned());
                        self.pending.push(entry);
                        assert(self@.pending =~= before.pending.push(entry.deep_view()));
                    }
                }
            }
        }
    }

    fn find_command(&self, call_id: &str) -> (r: Option<String>)
        ensures
            r.deep_view() == entry_value(self@.pending, call_id@),
    {
        let ghost all = self.pending.deep_view();
        let mut i: usize = self.pending.len();
        assert(all.take(i as int) =~= all);
        while i > 0
            invariant
                i <= self.pending@.len(),
                all == self.pending.deep_view(),
                entry_value(all, call_id@) == entry_value(all.take(i as int), call_id@),
            decreases i,
        {
            let ghost head = all.take(i as int);
            assert(head.drop_last() =~= all.take(i - 1));
            assert(head.last() == (self.pending@[i - 1].0@, self.pending@[i - 1].1@));
            if same(self.pending[i - 1].0.as_str(), call_id) {
                return Some(self.pending[i - 1].1.clone());
            }
            i -= 1;
        }
        None
    }

    fn note_paths(&mut self, paths: &Vec<String>)
        ensures
            final(self)@ == (TurnView {
                affected: paths_added(
                    old(self)@.affected,
                    texts(paths@),
                    paths@.len() as int,
                ),
                ..old(self)@
            }),
    {
        let ghost before = self@;
        let ghost all = texts(paths@);
        let mut i: usize = 0;
        while i < paths.len()
            invariant
                i <= paths@.len(),
                all == texts(paths@),
                self@ == (TurnView {
                    affected: paths_added(before.affected, all, i as int),
                    ..before
                }),
            decreases paths.len() - i,
        {
            assert(all[i as int] == paths@[i as int]@);
            if !is_listed(&self.affected, paths[i].as_str()) {
                let ghost now = texts(self.affected@);
                self.affected.push(paths[i].clone());
                assert(texts(self.affected@) =~= now.push(paths@[i as int]@));
            }
            i += 1;
        }
    }

    fn note_change(&mut self, change: &FileChange)
        ensures
            final(self)@ == (TurnView {
                changes: change_added(old(self)@.changes, *change),
                ..old(self)@
            }),
    {
        let ghost before = self.changes@;
        let mut i: usize = 0;
        while i < self.changes.len()
            invariant
                i <= self.changes@.len(),
                before == self.changes@,
                self@ == old(self)@,
                change_index(before, change.path@, 0) == change_index(
                    before,
                    change.path@,
                    i as int,
                ),
            decreases self.changes.len() - i,
        {
            if same(self.changes[i].path.as_str(), change.path.as_str()) {
                self.changes[i].after = change.after.clone();
                assert(self.changes@ =~= change_added(before, *change));
                return ;
            }
            i += 1;
        }
        self.changes.push(change.clone());
        assert(self.changes@ =~= change_added(before, *change));
    }

    fn note_changes(&mut self, changes: &Vec<FileChange>)
        ensures
            final(self)@ == (TurnView {
                changes: changes_added(old(self)@.changes, changes@, changes@.len() as int),
                ..old(self)@
            }),
    {
        let ghost before = self@;
        let mut i: usize = 0;
        while i < changes.len()
            invariant
                i <= changes@.len(),
                self@ == (TurnView {
                    changes: changes_added(before.changes, changes@, i as int),
                    ..before
                }),
            decreases changes.len() - i,
        {
            self.note_change(&changes[i]);
            i += 1;
        }
    }

    fn note_activity(&mut self, entry: SessionActivity)
        ensures
            final(self)@ == (TurnView {
                activity: activity_kept(old(self)@.activity.push(activity_view(entry))),
                ..old(self)@
            }),
    {
        let ghost before = self@.activity;
        self.activity.push(entry);
        assert(self@.activity =~= before.push(activity_view(entry)));
        if self.activity.len() > 500 {
            let ghost all = self.activity@;
            let excess: usize = self.activity.len() - 500;
            self.activity = self.activity.split_off(excess);
            assert(self@.activity =~= activity_views(all).skip(excess as int));
        }
    }

    /// Takes the end of a call.
    pub fn end_call(
        &mut self,
        name: &str,
        output: &str,
        is_error: bool,
        call_id: &str,
        metadata: &ToolResultMetadata,
        now: &str,
    )
        ensures
            final(self)@ == call_ended(
                old(self)@,
                name@,
                output@,
                is_error,
                call_id@,
                *metadata,
                now@,
            ),
    {
        let command = self.find_command(call_id);
        self.forget(call_id);
        if !is_error {
            if let Some(command) = command {
                let ghost before = self@;
                self.commands.push(command);
                assert(self@.commands =~= before.commands.push(command@));
            }
            self.note_paths(&metadata.affected_paths);
            self.note_changes(&metadata.file_changes);
        }
        let label = if is_error {
            cat2("Failed ", name)
        } else {
            cat2("Completed ", name)
        };
        self.note_activity(
            SessionActivity {
                id: call_id.to_owned(),
                kind: "tool".to_owned(),
                label,
                detail: take_chars(output, 24000),
                created_at: now.to_owned(),
            },
        );
    }

    /// Takes a source that was cited, under an id.
    pub fn cite(&mut self, source: &SourceCitation, id: &str, now: &str)
        ensures
            final(self)@ == source_cited(old(self)@, *source, id@, now@),
    {
        self.note_activity(
            SessionActivity {
                id: id.to_owned(),
                kind: "citation".to_owned(),
                label: source.title.clone(),
                detail: source.url.clone(),
                created_at: now.to_owned(),
            },
        );
    }

    /// Takes an event of the loop.
    pub fn record(&mut self, event: &AgentLoopEvent, id: &str, now: &str)
        ensures
            final(self)@ == recorded(
                old(self)@,
                *event,
                match event {
                    AgentLoopEvent::ToolStart(_, arguments, _) => json_in(arguments@),
                    _ => None,
                },
                id@,
                now@,
            ),
    {
        match event {
            AgentLoopEvent::ToolStart(name, arguments, call_id) => {
                let parsed = parse_json(arguments.as_str());
                self.start_call(name.as_str(), call_id.as_str(), &parsed);
            },
            AgentLoopEvent::ToolEnd(name, output, is_error, call_id, _, metadata) => {
                self.end_call(
                    name.as_str(),
                    output.as_str(),
                    *is_error,
                    call_id.as_str(),
                    metadata,
                    now,
                );
            },
            AgentLoopEvent::Citation(source) => {
                self.cite(source, id, now);
            },
            _ => {},
        }
    }
}

fn copy_activity(v: &Vec<SessionActivity>) -> (r: Vec<SessionActivity>)
    ensures
        r@ == v@,
{
    let mut r: Vec<SessionActivity> = Vec::new();
    let mut i: usize = 0;
    while i < v.len()
        invariant
            i <= v@.len(),
            r@ == v@.take(i as int),
        decreases v.len() - i,
    {
        r.push(v[i].clone());
        assert(r@ =~= v@.take(i + 1));
        i += 1;
    }
    assert(r@ =~= v@);
    r
}

fn copy_changes(v: &Vec<FileChange>) -> (r: Vec<FileChange>)
    ensures
        r@ == v@,
{
    let mut r: Vec<FileChange> = Vec::new();
    let mut i: usize = 0;
    while i < v.len()
        invariant
            i <= v@.len(),
            r@ == v@.take(i as int),
        decreases v.len() - i,
    {
        r.push(v[i].clone());
        assert(r@ =~= v@.take(i + 1));
        i += 1;
    }
    assert(r@ =~= v@);
    r
}

/// Whether a session is another one brought to a checkpoint of the loop, where `base_cost` and
/// `base_rounds` are what the session had cost and taken before the loop started.
pub open spec fn at_checkpoint(
    o: LocalSession,
    checkpoint: AgentLoopCheckpoint,
    base_cost: u64,
    base_rounds: u32,
    turn: TurnRecorder,
    f: LocalSession,
) -> bool {
    &&& f.messages.deep_view() == checkpoint.messages.deep_view()
    &&& f.active_generation_id.deep_view() == checkpoint.active_generation_id.deep_view()
    &&& f.activity@ == turn.activity@
    &&& f.last_turn_affected_paths@ == turn.affected@
    &&& f.last_turn_commands@ == turn.commands@
    &&& f == (LocalSession {
        messages: f.messages,
        cost_micro: (base_cost + checkpoint.cost_micro) as u64,
        rounds: (base_rounds + checkpoint.rounds) as u32,
        active_generation_id: f.active_generation_id,
        last_usage: checkpoint.last_usage,
        context: checkpoint.context,
        stop_reason: checkpoint.stop_reason,
        activity: f.activity,
        last_turn_affected_paths: f.last_turn_affected_paths,
        last_turn_commands: f.last_turn_commands,
        state: if checkpoint.stop_reason is Some {
            SessionState::Completed
        } else {
            SessionState::Interrupted
        },
        ..o
    })
}

/// Brings a session to a checkpoint of the loop. `base_cost` and `base_rounds` are what the session
/// had cost and taken before the loop started.
pub fn apply_checkpoint(
    session: &mut LocalSession,
    checkpoint: &AgentLoopCheckpoint,
    base_cost: u64,
    base_rounds: u32,
    turn: &TurnRecorder,
)
    requires
        base_cost + checkpoint.cost_micro <= u64::MAX,
        base_rounds + checkpoint.rounds <= u32::MAX,
    ensures
        at_checkpoint(*old(session), *checkpoint, base_cost, base_rounds, *turn, *final(session)),
{
    session.messages = copy_messages(&checkpoint.messages);
    session.cost_micro = base_cost + checkpoint.cost_micro;
    session.rounds = base_rounds + checkpoint.rounds;
    session.active_generation_id =
    match &checkpoint.active_generation_id {
        Some(id) => Some(id.clone()),
        None => None,
    };
    session.last_usage = checkpoint.last_usage;
    session.context = checkpoint.context;
    session.stop_reason = checkpoint.stop_reason;
    session.activity = copy_activity(&turn.activity);
    session.last_turn_affected_paths = copy_texts(&turn.affected);
    session.last_turn_commands = copy_texts(&turn.commands);
    session.state =
    if checkpoint.stop_reason.is_some() {
        SessionState::Completed
    } else {
        SessionState::Interrupted
    };
}

// ---------------------------------------------------------------------------------------------
// After the loop
// ---------------------------------------------------------------------------------------------

/// The models of a session after one more run: a model that ran last is not noted twice in a row.
pub open spec fn history_after(history: Seq<Seq<char>>, model: Seq<char>) -> Seq<Seq<char>> {
    if history.len() > 0 && history.last() == model {
        history
    } else {
        history.push(model)
    }
}

/// Whether a session is another one brought to the end of a run with a model.
pub open spec fn at_end(
    o: LocalSession,
    model: Seq<char>,
    result: AgentLoopResult,
    turn: TurnRecorder,
    f: LocalSession,
) -> bool {
    &&& f.model@ == model
    &&& texts(f.model_history@) == history_after(texts(o.model_history@), model)
    &&& f.messages.deep_view() == result.messages.deep_view()
    &&& f.last_turn_changes@ == turn.changes@
    &&& f.last_turn_affected_paths@ == turn.affected@
    &&& f.last_turn_commands@ == turn.commands@
    &&& f == (LocalSession {
        model: f.model,
        model_history: f.model_history,
        messages: f.messages,
        active_generation_id: None,
        stop_reason: Some(result.stop_reason),
        state: SessionState::Completed,
        pending_turn_base: None,
        last_turn_changes: f.last_turn_changes,
        last_turn_affected_paths: f.last_turn_affected_paths,
        last_turn_commands: f.last_turn_commands,
        ..o
    })
}

/// Brings a session to the end of a run with a model.
pub fn finish_session(
    session: &mut LocalSession,
    model: &str,
    result: &AgentLoopResult,
    turn: &TurnRecorder,
)
    ensures
        at_end(*old(session), model@, *result, *turn, *final(session)),
{
    let ghost history = texts(session.model_history@);
    session.model = model.to_owned();
    let n = session.model_history.len();
    assert(n > 0 ==> history.last() == session.model_history@[n - 1]@);
    if n == 0 || !same(session.model_history[n - 1].as_str(), model) {
        session.model_history.push(model.to_owned());
        assert(texts(session.model_history@) =~= history.push(model@));
    }
    session.messages = copy_messages(&result.messages);
    session.active_generation_id = None;
    session.stop_reason = Some(result.stop_reason);
    session.state = SessionState::Completed;
    session.pending_turn_base = None;
    session.last_turn_changes = copy_changes(&turn.changes);
    session.last_turn_affected_paths = copy_texts(&turn.affected);
    session.last_turn_commands = copy_texts(&turn.commands);
}

/// What came of telling the service of a session.
#[derive(Debug, PartialEq, Eq)]
pub enum SyncOutcome {
    Done,
    Failed(String),
    TimedOut,
}

/// The warning that a failure to tell the service makes.
pub fn sync_warning(outcome: SyncOutcome) -> (r: Option<RunWarning>)
    ensures
        match outcome {
            SyncOutcome::Done => r is None,
            SyncOutcome::Failed(message) => r is Some && r->0.code@
                == "session_metadata_sync_failed"@ && r->0.message == message,
            SyncOutcome::TimedOut => r is Some && r->0.code@ == "session_metadata_sync_failed"@
                && r->0.message@ == "request timed out"@,
        },
{
    match outcome {
        SyncOutcome::Done => None,
        SyncOutcome::Failed(message) => Some(
            RunWarning::new("session_metadata_sync_failed", message),
        ),
        SyncOutcome::TimedOut => Some(
            RunWarning::new("session_metadata_sync_failed", "request timed out".to_owned()),
        ),
    }
}

/// What a run hands back.
#[derive(Debug, Clone, PartialEq, Eq)]
pub struct RunOutcome {
    pub code: i32,
    pub session: LocalSession,
    pub result: AgentLoopResult,
    pub invocation_cost_micro: u64,
    pub warnings: Vec<RunWarning>,
    pub file_changes: Vec<FileChange>,
    pub affected_paths: Vec<String>,
    pub commands: Vec<String>,
}

/// The code that a run ends with.
pub open spec fn exit_code(reason: AgentStopReason) -> i32 {
    if reason == AgentStopReason::Complete {
        0i32
    } else {
        1i32
    }
}

/// Puts together what a run hands back: it succeeds where the model was done.
pub fn run_outcome(
    session: LocalSession,
    result: AgentLoopResult,
    start_cost: u64,
    warnings: Vec<RunWarning>,
    turn: TurnRecorder,
) -> (r: RunOutcome)
    ensures
        r.code == exit_code(result.stop_reason),
        r.session == session,
        r.result == result,
        r.invocation_cost_micro == spent_since(session.cost_micro as nat, start_cost as nat),
        r.warnings == warnings,
        r.file_changes == turn.changes,
        r.affected_paths == turn.affected,
        r.commands == turn.commands,
{
    let code: i32 = if result.stop_reason == AgentStopReason::Complete {
        0
    } else {
        1
    };
    let invocation_cost_micro: u64 = if session.cost_micro > start_cost {
        session.cost_micro - start_cost
    } else {
        0
    };
    RunOutcome {
        code,
        session,
        result,
        invocation_cost_micro,
        warnings,
        file_changes: turn.changes,
        affected_paths: turn.affected,
        commands: turn.commands,
    }
}

// ---------------------------------------------------------------------------------------------
// Laws
// ---------------------------------------------------------------------------------------------

proof fn instructions_append(a: Seq<MessageView>, b: Seq<MessageView>)
    ensures
        instructions(a + b) == instructions(a) + instructions(b),
    decreases b.len(),
{
    if b.len() == 0 {
        assert(a + b =~= a);
        assert(instructions(a) + instructions(b) =~= instructions(a));
    } else {
        assert((a + b).drop_last() =~= a + b.drop_last());
        assert((a + b).last() == b.last());
        instructions_append(a, b.drop_last());
        assert(instructions(a + b) =~= instructions(a) + instructions(b));
    }
}

proof fn instructions_are_instructions(messages: Seq<MessageView>)
    ensures
        instructions(instructions(messages)) == instructions(messages),
    decreases messages.len(),
{
    if messages.len() > 0 {
        instructions_are_instructions(messages.drop_last());
        if is_instruction(messages.last()) {
            let head = instructions(messages.drop_last());
            assert(head.push(messages.last()).drop_last() =~= head);
        }
    }
}

/// Summarising keeps the instructions of a conversation and its last turn; an earlier summary does
/// not stay beside the new one.
pub proof fn compaction_keeps_instructions_and_last_turn(
    messages: Seq<MessageView>,
    summary: Seq<char>,
)
    ensures
        instructions(compacted(messages, summary)) == instructions(messages) + instructions(
            last_turn(messages),
        ),
        compacted(messages, summary).len() == instructions(messages).len() + 1 + last_turn(
            messages,
        ).len(),
        last_turn(messages) == compacted(messages, summary).skip(
            instructions(messages).len() as int + 1,
        ),
{
    let turn = last_turn(messages);
    let kept = instructions(messages);
    let text = "[RONIN_COMPACTED_CONTEXT]\n"@ + trimmed(summary);
    let note = MessageView::System(text);
    assert(compacted(messages, summary) =~= kept + (seq![note] + turn));
    instructions_append(kept, seq![note] + turn);
    instructions_append(seq![note], turn);
    instructions_are_instructions(messages);
    reveal_strlit("[RONIN_COMPACTED_CONTEXT]\n");
    reveal_strlit("[RONIN_COMPACTED_CONTEXT]");
    assert(text.subrange(0, "[RONIN_COMPACTED_CONTEXT]"@.len() as int)
        =~= "[RONIN_COMPACTED_CONTEXT]"@);
    assert(!is_instruction(note));
    reveal_with_fuel(instructions, 2);
    assert(seq![note].drop_last() =~= Seq::<MessageView>::empty());
    assert(instructions(seq![note]) =~= Seq::empty());
    assert(instructions(compacted(messages, summary)) =~= kept + instructions(turn));
    assert(compacted(messages, summary).skip(kept.len() as int + 1) =~= turn);
}

/// A turn never keeps more than the last 500 things that happened.
pub proof fn activity_is_bounded(
    t: TurnView,
    event: AgentLoopEvent,
    parsed: Option<JsonView>,
    id: Seq<char>,
    now: Seq<char>,
)
    requires
        t.activity.len() <= 500,
    ensures
        recorded(t, event, parsed, id, now).activity.len() <= 500,
{
}

/// A call that failed changed nothing that is kept but what happened.
pub proof fn failed_calls_leave_no_changes(
    t: TurnView,
    name: Seq<char>,
    output: Seq<char>,
    call_id: Seq<char>,
    metadata: ToolResultMetadata,
    now: Seq<char>,
)
    ensures
        ({
            let after = call_ended(t, name, output, true, call_id, metadata, now);
            &&& after.changes == t.changes
            &&& after.affected == t.affected
            &&& after.commands == t.commands
        }),
{
}

/// No two changes are of one file.
pub open spec fn distinct_changes(changes: Seq<FileChange>) -> bool {
    forall|i: int, j: int| 0 <= i < j < changes.len() ==> changes[i].path@ != changes[j].path@
}

proof fn change_index_bounds(changes: Seq<FileChange>, path: Seq<char>, from: int)
    requires
        0 <= from <= changes.len(),
    ensures
        from <= change_index(changes, path, from) <= changes.len(),
        change_index(changes, path, from) < changes.len() ==> changes[change_index(
            changes,
            path,
            from,
        )].path@ == path,
        forall|k: int|
            from <= k < change_index(changes, path, from) ==> (#[trigger] changes[k]).path@ != path,
    decreases changes.len() - from,
{
    if from < changes.len() && changes[from].path@ != path {
        change_index_bounds(changes, path, from + 1);
    }
}

/// The paths that a turn changed are kept each once.
pub proof fn recorded_paths_stay_distinct(list: Seq<Seq<char>>, more: Seq<Seq<char>>, n: int)
    requires
        list.no_duplicates(),
        n <= more.len(),
    ensures
        paths_added(list, more, n).no_duplicates(),
        list.is_prefix_of(paths_added(list, more, n)),
        forall|i: int| 0 <= i < n ==> listed(paths_added(list, more, n), #[trigger] more[i]),
    decreases n,
{
    if n > 0 {
        recorded_paths_stay_distinct(list, more, n - 1);
        let before = paths_added(list, more, n - 1);
        let after = paths_added(list, more, n);
        assert forall|i: int| 0 <= i < n implies listed(after, #[trigger] more[i]) by {
            if !listed(before, more[n - 1]) {
                if i < n - 1 {
                    let k = choose|k: int| 0 <= k < before.len() && before[k] == more[i];
                    assert(after[k] == more[i]);
                } else {
                    assert(after[before.len() as int] == more[i]);
                }
            }
        }
        assert forall|i: int, j: int| 0 <= i < after.len() && 0 <= j < after.len() && i != j implies
            after[i] != after[j] by {
            if !listed(before, more[n - 1]) {
                if i < before.len() && j < before.len() {
                    assert(before[i] != before[j]);
                } else if i < before.len() {
                    assert(before.contains(before[i]));
                } else {
                    assert(before.contains(before[j]));
                }
            }
        }
    }
}

/// Of each file one change is kept, and it starts from what the first change found.
pub proof fn one_change_is_kept_for_each_file(changes: Seq<FileChange>, change: FileChange)
    requires
        distinct_changes(changes),
    ensures
        distinct_changes(change_added(changes, change)),
        forall|i: int|
            0 <= i < changes.len() ==> (#[trigger] change_added(changes, change)[i]).path
                == changes[i].path && change_added(changes, change)[i].before == changes[i].before,
{
    change_index_bounds(changes, change.path@, 0);
    let after = change_added(changes, change);
    assert forall|i: int, j: int| 0 <= i < j < after.len() implies after[i].path@ != after[j].path@ by {
        if j < changes.len() {
            assert(changes[i].path@ != changes[j].path@);
        }
    }
}

/// A summary after the events of its completion, one after the other.
pub open spec fn all_summarised(s: SummaryView, events: Seq<GenerationStreamEvent>) -> SummaryView
    decreases events.len(),
{
    if events.len() == 0 {
        s
    } else {
        summary_received(all_summarised(s, events.drop_last()), events.last())
    }
}

/// A summary is all the text that its completion streamed, in its order; it is complete where the
/// completion ended by being complete.
pub proof fn summaries_are_all_that_was_streamed(s: SummaryView, events: Seq<GenerationStreamEvent>)
    ensures
        all_summarised(s, events).summary == s.summary + pieces_of(events).flatten(),
        all_summarised(s, events).complete == match ending_of(events) {
            Some(reason) => reason == FinishReason::Complete,
            None => s.complete,
        },
    decreases events.len(),
{
    if events.len() == 0 {
        assert(s.summary + pieces_of(events).flatten() =~= s.summary);
    } else {
        let before = events.drop_last();
        summaries_are_all_that_was_streamed(s, before);
        if let GenerationStreamEvent::Delta { text } = events.last() {
            let pieces = pieces_of(before);
            pieces.lemma_flatten_push(text@);
            assert(all_summarised(s, events).summary =~= s.summary + pieces.push(text@).flatten());
        }
    }
}

proof fn instructions_are_a_choice(messages: Seq<MessageView>)
    ensures
        instructions(messages) == messages.filter(
            |m: MessageView|
                m is System && !begins_with(m->System_0, "[RONIN_COMPACTED_CONTEXT]"@),
        ),
    decreases messages.len(),
{
    reveal(Seq::filter);
    if messages.len() > 0 {
        instructions_are_a_choice(messages.drop_last());
    }
}

/// A summarised conversation is its instructions but for earlier summaries, the new summary, and all
/// that was said from the last message of the user on; where the user said nothing, nothing more.
pub proof fn a_summary_stands_for_what_came_before(
    messages: Seq<MessageView>,
    summary: Seq<char>,
    at: int,
)
    requires
        0 <= at <= messages.len(),
        at < messages.len() ==> messages[at] is User,
        at < messages.len() ==> forall|k: int|
            at < k < messages.len() ==> !((#[trigger] messages[k]) is User),
        at == messages.len() ==> forall|k: int|
            0 <= k < messages.len() ==> !((#[trigger] messages[k]) is User),
    ensures
        compacted(messages, summary) == messages.filter(
            |m: MessageView|
                m is System && !begins_with(m->System_0, "[RONIN_COMPACTED_CONTEXT]"@),
        ) + seq![MessageView::System("[RONIN_COMPACTED_CONTEXT]\n"@ + trimmed(summary))]
            + messages.skip(at),
{
    instructions_are_a_choice(messages);
    if at < messages.len() {
        last_turn_from(messages, at);
    } else {
        last_turn_of_none(messages);
        assert(messages.skip(at) =~= last_turn(messages));
    }
    assert(compacted(messages, summary) =~= instructions(messages) + seq![
        MessageView::System("[RONIN_COMPACTED_CONTEXT]\n"@ + trimmed(summary)),
    ] + messages.skip(at));
}

/// A prompt is asked behind all that was said, word for word; a blank one is not asked.
pub proof fn prompts_are_asked_last(messages: Seq<MessageView>, prompt: Seq<char>)
    ensures
        messages.is_prefix_of(asked(messages, prompt)),
        trimmed(prompt).len() == 0 <==> asked(messages, prompt).len() == messages.len(),
        trimmed(prompt).len() > 0 ==> asked(messages, prompt).len() == messages.len() + 1
            && asked(messages, prompt).last() == MessageView::User(prompt),
{
    trimmed_is_empty_iff_blank(prompt);
}

/// The model of a run is the first on offer that has the id and, where they are needed, tools.
pub proof fn the_first_model_of_an_id_is_used(
    models: Seq<ModelSummary>,
    id: Seq<char>,
    tools: bool,
    from: int,
)
    requires
        0 <= from <= models.len(),
    ensures
        ({
            let at = model_index(models, id, tools, from);
            &&& from <= at <= models.len()
            &&& at < models.len() ==> models[at].model_id@ == id && (tools
                ==> models[at].supports_tools)
            &&& forall|i: int|
                from <= i < at ==> !((#[trigger] models[i]).model_id@ == id && (tools
                    ==> models[i].supports_tools))
        }),
    decreases models.len() - from,
{
    if from < models.len() {
        the_first_model_of_an_id_is_used(models, id, tools, from + 1);
    }
}

/// The title of a session is its first line of text, without white space around it and at most
/// eighty characters of it; a prompt without text gives none.
pub proof fn titles_are_first_lines(prompt: Seq<char>, at: int)
    requires
        0 <= at <= lines(prompt).len(),
        forall|i: int| 0 <= i < at ==> trimmed(#[trigger] lines(prompt)[i]).len() == 0,
        at < lines(prompt).len() ==> trimmed(lines(prompt)[at]).len() > 0,
    ensures
        at == lines(prompt).len() ==> prompt_title(prompt) is None,
        at < lines(prompt).len() ==> (prompt_title(prompt) matches Some(title) && title.len() <= 80
            && title.is_prefix_of(trimmed(lines(prompt)[at])) && (title.len() == 80 || title
            == trimmed(lines(prompt)[at]))),
{
    first_line_is_first(lines(prompt), at);
}

proof fn first_line_is_first(all: Seq<Seq<char>>, at: int)
    requires
        0 <= at <= all.len(),
        forall|i: int| 0 <= i < at ==> trimmed(#[trigger] all[i]).len() == 0,
        at < all.len() ==> trimmed(all[at]).len() > 0,
    ensures
        first_line(all) == if at < all.len() {
            Some(trimmed(all[at]))
        } else {
            None
        },
    decreases all.len(),
{
    if all.len() > 0 && at > 0 {
        assert(trimmed(all[0]).len() == 0);
        assert forall|i: int| 0 <= i < at - 1 implies trimmed(#[trigger] all.skip(1)[i]).len()
            == 0 by {
            assert(all.skip(1)[i] == all[i + 1]);
        }
        first_line_is_first(all.skip(1), at - 1);
    }
}

/// A session costs what it cost before the loop and what the loop has cost, however often it is
/// brought to a checkpoint; it is done where the loop has stopped, and what was said is what the
/// loop says.
pub proof fn checkpoints_count_the_loop_once(
    o: LocalSession,
    c: AgentLoopCheckpoint,
    d: AgentLoopCheckpoint,
    base_cost: u64,
    base_rounds: u32,
    turn: TurnRecorder,
    f: LocalSession,
    g: LocalSession,
)
    requires
        base_cost + d.cost_micro <= u64::MAX,
        base_rounds + d.rounds <= u32::MAX,
        at_checkpoint(o, c, base_cost, base_rounds, turn, f),
        at_checkpoint(f, d, base_cost, base_rounds, turn, g),
    ensures
        g.cost_micro == base_cost + d.cost_micro,
        g.rounds == base_rounds + d.rounds,
        g.messages.deep_view() == d.messages.deep_view(),
        g.state == SessionState::Completed <==> d.stop_reason is Some,
        g.state == SessionState::Interrupted <==> d.stop_reason is None,
        g.stop_reason == d.stop_reason && g.last_usage == d.last_usage && g.context == d.context,
        g.active_generation_id.deep_view() == d.active_generation_id.deep_view(),
        g.id == o.id && g.cwd == o.cwd && g.model == o.model && g.title == o.title,
        g.created_at == o.created_at && g.parent_session_id == o.parent_session_id,
        g.last_turn_commands@ == turn.commands@ && g.last_turn_affected_paths@ == turn.affected@,
{
}

/// A run leaves the session done, with what was said and changed in it and the model that it ran
/// with; what it cost and where it is stays as the checkpoints left it.
pub proof fn runs_end_with_what_was_said(
    o: LocalSession,
    model: Seq<char>,
    result: AgentLoopResult,
    turn: TurnRecorder,
    f: LocalSession,
)
    requires
        at_end(o, model, result, turn, f),
    ensures
        f.messages.deep_view() == result.messages.deep_view(),
        f.model@ == model,
        f.state == SessionState::Completed && f.stop_reason == Some(result.stop_reason),
        f.active_generation_id is None && f.pending_turn_base is None,
        f.last_turn_changes@ == turn.changes@,
        f.cost_micro == o.cost_micro && f.rounds == o.rounds && f.id == o.id && f.cwd == o.cwd,
        texts(f.model_history@).len() > 0 && texts(f.model_history@).last() == model,
        texts(o.model_history@).is_prefix_of(texts(f.model_history@)),
{
}

/// Two changes of a file are one from what the first found to what the second left; a change of
/// another file is kept behind the others.
pub proof fn changes_of_a_file_are_one(changes: Seq<FileChange>, change: FileChange, i: int)
    requires
        distinct_changes(changes),
        0 <= i < changes.len(),
    ensures
        ({
            let after = change_added(changes, change);
            &&& changes[i].path@ == change.path@ ==> after.len() == changes.len() && after[i].after
                == change.after && after[i].before == changes[i].before
            &&& changes[i].path@ != change.path@ ==> after[i] == changes[i]
            &&& (forall|k: int|
                0 <= k < changes.len() ==> (#[trigger] changes[k]).path@ != change.path@) ==> after
                == changes.push(change)
        }),
{
    change_index_bounds(changes, change.path@, 0);
    let at = change_index(changes, change.path@, 0);
    if changes[i].path@ == change.path@ && at != i {
        assert(at < i);
        assert(changes[at].path@ != changes[i].path@);
    }
}

/// A command that ran and did not fail is kept among the commands of the turn.
pub proof fn commands_that_ran_are_kept(
    t: TurnView,
    call_id: Seq<char>,
    command: Seq<char>,
    parsed: Option<JsonView>,
    name: Seq<char>,
    output: Seq<char>,
    metadata: ToolResultMetadata,
    now: Seq<char>,
)
    requires
        command_in(parsed) == Some(command),
    ensures
        ({
            let begun = call_started(t, "bash"@, call_id, parsed);
            let done = call_ended(begun, name, output, false, call_id, metadata, now);
            let failed = call_ended(begun, name, output, true, call_id, metadata, now);
            &&& done.commands == t.commands.push(command)
            &&& failed.commands == t.commands
            &&& done.activity.len() > 0 && done.activity.last().id == call_id
                && done.activity.last().label == "Completed "@ + name
            &&& failed.activity.len() > 0 && failed.activity.last().label == "Failed "@ + name
        }),
{
}

/// A conversation is summarised where it is said to fill the window, and where a model with a
/// smaller window takes over a conversation that may not fit; otherwise it is left alone.
pub proof fn conversations_are_summarised_when_due(
    models: Seq<ModelSummary>,
    selected: ModelSummary,
    session: LocalSession,
    fills: bool,
    at: int,
)
    requires
        0 <= at < models.len(),
        models[at].model_id@ == session.model@,
        forall|i: int| 0 <= i < at ==> (#[trigger] models[i]).model_id@ != session.model@,
    ensures
        session.context is Some && session.context->0.needs_compaction ==> compaction_due(
            models,
            selected,
            session,
            fills,
        ),
        (session.context is None || !session.context->0.needs_compaction)
            && selected.context_window >= models[at].context_window ==> !compaction_due(
            models,
            selected,
            session,
            fills,
        ),
        (session.context is None || !session.context->0.needs_compaction)
            && selected.context_window < models[at].context_window && session.last_usage is Some
            ==> compaction_due(models, selected, session, fills) == fills,
        (session.context is None || !session.context->0.needs_compaction)
            && selected.context_window < models[at].context_window && session.last_usage is None
            ==> compaction_due(models, selected, session, fills) == (session.messages.deep_view(
        ).filter(|m: MessageView| m is User).len() > 1),
{
    user_turns_are_counted(session.messages.deep_view());
    first_of_its_id(models, session.model@, at, 0);
}

proof fn user_turns_are_counted(messages: Seq<MessageView>)
    ensures
        user_turns(messages) == messages.filter(|m: MessageView| m is User).len(),
    decreases messages.len(),
{
    reveal(Seq::filter);
    if messages.len() > 0 {
        user_turns_are_counted(messages.drop_last());
    }
}

proof fn first_of_its_id(models: Seq<ModelSummary>, id: Seq<char>, at: int, from: int)
    requires
        0 <= from <= at < models.len(),
        models[at].model_id@ == id,
        forall|i: int| 0 <= i < at ==> (#[trigger] models[i]).model_id@ != id,
    ensures
        model_index(models, id, false, from) == at,
    decreases at - from,
{
    if from < at {
        assert(models[from].model_id@ != id);
        first_of_its_id(models, id, at, from + 1);
    }
}

/// A conversation is summarised by the model that the settings name where there is one of that id,
/// without a warning; otherwise by the model of the run, and the user is told which.
pub proof fn summaries_are_made_by_the_configured_model(
    models: Seq<ModelSummary>,
    selected: ModelSummary,
    configured: Option<Seq<char>>,
    at: int,
)
    ensures
        configured is None ==> summariser(models, selected, configured) == (selected, true),
        configured is Some && 0 <= at < models.len() && models[at].model_id@ == configured->0 && (
        forall|i: int| 0 <= i < at ==> (#[trigger] models[i]).model_id@ != configured->0)
            ==> summariser(models, selected, configured) == (models[at], false),
        configured is Some && (forall|i: int|
            0 <= i < models.len() ==> (#[trigger] models[i]).model_id@ != configured->0)
            ==> summariser(models, selected, configured).0 == selected,
{
    if configured is Some {
        if 0 <= at < models.len() && models[at].model_id@ == configured->0 && (forall|i: int|
            0 <= i < at ==> (#[trigger] models[i]).model_id@ != configured->0) {
            first_of_its_id(models, configured->0, at, 0);
        }
        if forall|i: int|
            0 <= i < models.len() ==> (#[trigger] models[i]).model_id@ != configured->0 {
            none_of_its_id(models, configured->0, 0);
        }
    }
}

proof fn none_of_its_id(models: Seq<ModelSummary>, id: Seq<char>, from: int)
    requires
        0 <= from <= models.len(),
        forall|i: int| 0 <= i < models.len() ==> (#[trigger] models[i]).model_id@ != id,
    ensures
        model_index(models, id, false, from) == models.len(),
    decreases models.len() - from,
{
    if from < models.len() {
        assert(models[from].model_id@ != id);
        none_of_its_id(models, id, from + 1);
    }
}

/// What is left for the loop and what was spent before make up the limit; nothing is left where as
/// much was spent as the limit allows, and without a limit there is no end.
pub proof fn budgets_add_up(limit: Option<nat>, cost: nat, start: nat)
    ensures
        limit is None ==> budget_left(limit, cost, start) == Some(None::<nat>),
        limit is Some && cost >= start && cost - start < limit->0 ==> (budget_left(
            limit,
            cost,
            start,
        ) matches Some(Some(left)) && left + (cost - start) == limit->0),
        limit is Some && cost >= start && cost - start >= limit->0 ==> budget_left(
            limit,
            cost,
            start,
        ) is None,
{
}

/// A run costs what its session cost more at its end, and succeeds where the model was done.
pub proof fn runs_cost_what_they_added(cost: nat, start: nat, reason: AgentStopReason)
    ensures
        cost >= start ==> start + spent_since(cost, start) == cost,
        cost < start ==> spent_since(cost, start) == 0,
        exit_code(reason) == 0 <==> reason == AgentStopReason::Complete,
{
}

/// What is kept of entries without a key are those of the other keys, in their order; and the value
/// of a key is that of the last entry of it.
pub proof fn entries_are_found_by_their_key(
    entries: Seq<(Seq<char>, Seq<char>)>,
    key: Seq<char>,
    i: int,
)
    ensures
        entries_without(entries, key) == entries.filter(|e: (Seq<char>, Seq<char>)| e.0 != key),
        0 <= i < entries.len() && entries[i].0 == key && (forall|k: int|
            i < k < entries.len() ==> (#[trigger] entries[k]).0 != key) ==> entry_value(entries, key)
            == Some(entries[i].1),
        (forall|k: int| 0 <= k < entries.len() ==> (#[trigger] entries[k]).0 != key) ==> entry_value(
            entries,
            key,
        ) is None,
    decreases entries.len(),
{
    reveal(Seq::filter);
    if entries.len() > 0 {
        let before = entries.drop_last();
        entries_are_found_by_their_key(before, key, i);
        assert(entries.last() == entries[entries.len() - 1]);
        assert(forall|k: int| 0 <= k < before.len() ==> #[trigger] before[k] == entries[k]);
        if forall|k: int| 0 <= k < entries.len() ==> (#[trigger] entries[k]).0 != key {
            assert forall|k: int| 0 <= k < before.len() implies (#[trigger] before[k]).0 != key by {
                assert(entries[k].0 != key);
            }
        }
        if 0 <= i < before.len() && entries[i].0 == key && (forall|k: int|
            i < k < entries.len() ==> (#[trigger] entries[k]).0 != key) {
            assert forall|k: int| i < k < before.len() implies (#[trigger] before[k]).0 != key by {
                assert(entries[k].0 != key);
            }
            assert(entries[entries.len() - 1].0 != key);
        }
    }
}

/// The paths that a call changed are all kept, behind those of the calls before it.
pub proof fn changed_paths_are_kept(list: Seq<Seq<char>>, more: Seq<Seq<char>>, n: int, k: int)
    requires
        0 <= k < n <= more.len(),
    ensures
        list.is_prefix_of(paths_added(list, more, n)),
        paths_added(list, more, n).contains(more[k]),
        forall|i: int|
            list.len() <= i < paths_added(list, more, n).len() ==> more.take(n).contains(
                #[trigger] paths_added(list, more, n)[i],
            ),
    decreases n,
{
    let before = paths_added(list, more, n - 1);
    let after = paths_added(list, more, n);
    if n > 1 {
        changed_paths_are_kept(
            list,
            more,
            n - 1,
            if k < n - 1 {
                k
            } else {
                0
            },
        );
    }
    assert(before.is_prefix_of(after));
    assert(list.is_prefix_of(after));
    if k < n - 1 {
        let j = choose|j: int| 0 <= j < before.len() && before[j] == more[k];
        assert(after[j] == more[k]);
    } else if listed(before, more[n - 1]) {
        assert(after.contains(more[n - 1]));
    } else {
        assert(after.last() == more[n - 1]);
    }
    assert forall|i: int| list.len() <= i < after.len() implies more.take(n).contains(
        #[trigger] after[i],
    ) by {
        if i < before.len() {
            assert(after[i] == before[i]);
            assert(more.take(n - 1).contains(before[i]));
            let earlier = more.take(n - 1);
            let j = choose|j: int| 0 <= j < earlier.len() && earlier[j] == before[i];
            assert(more.take(n)[j] == before[i]);
        } else {
            assert(more.take(n)[n - 1] == after[i]);
        }
    }
}

/// What is cited is kept as it happened, last and by its title and address.
pub proof fn citations_are_kept(t: TurnView, source: SourceCitation, id: Seq<char>, now: Seq<char>)
    ensures
        ({
            let after = source_cited(t, source, id, now);
            let last = after.activity.last();
            &&& after.activity.len() > 0
            &&& last.id == id && last.label == source.title@ && last.detail == source.url@
                && last.created_at == now
            &&& after.changes == t.changes && after.commands == t.commands && after.affected
                == t.affected
        }),
{
}

} // verus!
