//! The interactive session: commands, what a turn shows while it runs, and what keys do to it.
use crate::config::{
    config_error_text, equal_limits, same_limits, ConfigError, PermissionMode, RoninConfig,
};
use crate::display::{
    answer_rows, answer_shown, in_bold, in_tone, no_rows, source_rows, source_shown, summary_of,
    tool_args_summary, tool_end_rows, tool_end_shown, tool_start_rows, Row, RowView, StyledView,
    Tone,
};
use crate::json::{json_in, Json, JsonView, ObjectBuilder};
use crate::keys::Key;
use crate::loop_runner::{AgentLoopEvent, ContextShare};
use crate::storage::LocalSession;
use crate::text::{
    after_prefix, begins_with, blank, cat2, cat3, chars_of, contains, has_text, index_of_char,
    index_of_char_is_first, is_blank, join, joined, same, starts_with, strip_prefix, text_of, texts,
    trim, trimmed,
};
use vstd::prelude::*;
use vstd::utf8::{encode_scalar, encode_utf8};

verus! {

// ---------------------------------------------------------------------------------------------
// Commands
// ---------------------------------------------------------------------------------------------

/// What the user asks for.
#[derive(Debug, PartialEq, Eq)]
pub enum Command {
    Nothing,
    Help,
    Exit,
    Cost,
    Clear,
    Diff,
    Undo,
    Compact,
    WebStatus,
    WebOn,
    WebOff,
    PickModel,
    SetModel(String),
    Init { force: bool },
    Unknown(String),
    Prompt(String),
}

/// The mathematical value of a [`Command`].
pub enum CommandView {
    Nothing,
    Help,
    Exit,
    Cost,
    Clear,
    Diff,
    Undo,
    Compact,
    WebStatus,
    WebOn,
    WebOff,
    PickModel,
    SetModel(Seq<char>),
    Init(bool),
    Unknown(Seq<char>),
    Prompt(Seq<char>),
}

impl View for Command {
    type V = CommandView;

    open spec fn view(&self) -> CommandView {
        match self {
            Command::Nothing => CommandView::Nothing,
            Command::Help => CommandView::Help,
            Command::Exit => CommandView::Exit,
            Command::Cost => CommandView::Cost,
            Command::Clear => CommandView::Clear,
            Command::Diff => CommandView::Diff,
            Command::Undo => CommandView::Undo,
            Command::Compact => CommandView::Compact,
            Command::WebStatus => CommandView::WebStatus,
            Command::WebOn => CommandView::WebOn,
            Command::WebOff => CommandView::WebOff,
            Command::PickModel => CommandView::PickModel,
            Command::SetModel(s) => CommandView::SetModel(s@),
            Command::Init { force } => CommandView::Init(*force),
            Command::Unknown(s) => CommandView::Unknown(s@),
            Command::Prompt(s) => CommandView::Prompt(s@),
        }
    }
}

/// What a line asks for: a line that starts with a slash is a command, any other a prompt.
pub open spec fn command_of(input: Seq<char>) -> CommandView {
    let value = trimmed(input);
    if value.len() == 0 {
        CommandView::Nothing
    } else if value == "/help"@ {
        CommandView::Help
    } else if value == "/exit"@ || value == "/quit"@ {
        CommandView::Exit
    } else if value == "/cost"@ {
        CommandView::Cost
    } else if value == "/clear"@ {
        CommandView::Clear
    } else if value == "/diff"@ {
        CommandView::Diff
    } else if value == "/undo"@ {
        CommandView::Undo
    } else if value == "/compact"@ {
        CommandView::Compact
    } else if value == "/web"@ {
        CommandView::WebStatus
    } else if value == "/web on"@ {
        CommandView::WebOn
    } else if value == "/web off"@ {
        CommandView::WebOff
    } else if value == "/models"@ || value == "/model"@ {
        CommandView::PickModel
    } else if after_prefix(value, "/model "@) is Some {
        CommandView::SetModel(trimmed(after_prefix(value, "/model "@)->0))
    } else if after_prefix(value, "/init"@) is Some {
        CommandView::Init(has_text(after_prefix(value, "/init"@)->0, "--force"@))
    } else if begins_with(value, "/"@) {
        CommandView::Unknown(value)
    } else {
        CommandView::Prompt(value)
    }
}

/// What a line asks for.
pub fn parse_command(input: &str) -> (r: Command)
    ensures
        r@ == command_of(input@),
{
    let value = trim(input);
    let v = value.as_str();
    if v.is_empty() {
        return Command::Nothing;
    }
    if same(v, "/help") {
        return Command::Help;
    }
    if same(v, "/exit") || same(v, "/quit") {
        return Command::Exit;
    }
    if same(v, "/cost") {
        return Command::Cost;
    }
    if same(v, "/clear") {
        return Command::Clear;
    }
    if same(v, "/diff") {
        return Command::Diff;
    }
    if same(v, "/undo") {
        return Command::Undo;
    }
    if same(v, "/compact") {
        return Command::Compact;
    }
    if same(v, "/web") {
        return Command::WebStatus;
    }
    if same(v, "/web on") {
        return Command::WebOn;
    }
    if same(v, "/web off") {
        return Command::WebOff;
    }
    if same(v, "/models") || same(v, "/model") {
        return Command::PickModel;
    }
    if let Some(rest) = strip_prefix(v, "/model ") {
        return Command::SetModel(trim(rest.as_str()));
    }
    if let Some(rest) = strip_prefix(v, "/init") {
        return Command::Init { force: contains(rest.as_str(), "--force") };
    }
    if starts_with(v, "/") {
        return Command::Unknown(value);
    }
    Command::Prompt(value)
}

/// A prompt is sent to the model only where the line is no command.
pub proof fn commands_are_not_sent(input: Seq<char>)
    ensures
        command_of(input) matches CommandView::Prompt(text) ==> text == trimmed(input) && text.len()
            > 0 && !begins_with(text, "/"@),
{
}

/// The mode that an interactive session starts in.
pub open spec fn starting_mode(dangerous: bool, configured: PermissionMode) -> PermissionMode {
    if dangerous {
        PermissionMode::Yolo
    } else if configured == PermissionMode::Yolo {
        PermissionMode::Default
    } else {
        configured
    }
}

/// The mode that an interactive session starts in: only the flag on the command line lets
/// permissions be skipped.
pub fn session_mode(dangerous: bool, configured: PermissionMode) -> (r: PermissionMode)
    ensures
        r == starting_mode(dangerous, configured),
{
    if dangerous {
        PermissionMode::Yolo
    } else if configured == PermissionMode::Yolo {
        PermissionMode::Default
    } else {
        configured
    }
}

/// Whether permissions are skipped: by the flag, and as long as the mode is not changed.
pub fn bypasses(dangerous: bool, mode: PermissionMode) -> (r: bool)
    ensures
        r == (dangerous && mode == PermissionMode::Yolo),
{
    dangerous && mode == PermissionMode::Yolo
}

/// Clears the conversation of a session.
pub fn clear_session(session: &mut LocalSession)
    ensures
        final(session).messages@.len() == 0,
        final(session).last_turn_changes@.len() == 0,
        final(session).last_turn_affected_paths@.len() == 0,
        final(session).last_turn_commands@.len() == 0,
        *final(session) == (LocalSession {
            messages: final(session).messages,
            context: None,
            last_usage: None,
            last_turn_changes: final(session).last_turn_changes,
            last_turn_affected_paths: final(session).last_turn_affected_paths,
            last_turn_commands: final(session).last_turn_commands,
            ..*old(session)
        }),
{
    session.messages = Vec::new();
    session.context = None;
    session.last_usage = None;
    forget_turn(session);
}

/// Forgets what the last turn of a session changed and ran.
pub fn forget_turn(session: &mut LocalSession)
    ensures
        final(session).last_turn_changes@.len() == 0,
        final(session).last_turn_affected_paths@.len() == 0,
        final(session).last_turn_commands@.len() == 0,
        *final(session) == (LocalSession {
            last_turn_changes: final(session).last_turn_changes,
            last_turn_affected_paths: final(session).last_turn_affected_paths,
            last_turn_commands: final(session).last_turn_commands,
            ..*old(session)
        }),
{
    session.last_turn_changes = Vec::new();
    session.last_turn_affected_paths = Vec::new();
    session.last_turn_commands = Vec::new();
}

/// Something that the user is told, and its colour.
#[derive(Debug, PartialEq, Eq)]
pub struct Note {
    pub text: String,
    pub tone: Tone,
}

fn note(text: &str, tone: Tone) -> (r: Note)
    ensures
        r.text@ == text@,
        r.tone == tone,
{
    Note { text: text.to_owned(), tone }
}

/// What is said where the changes of the last turn cannot be shown; nothing where they can.
pub fn diff_refused(session: Option<&LocalSession>) -> (r: Option<Note>)
    ensures
        ({
            let changes = session is Some && session->0.last_turn_changes@.len() > 0;
            let paths = session is Some && session->0.last_turn_affected_paths@.len() > 0;
            match r {
                None => changes,
                Some(n) => if paths {
                    !changes && n.text@
                        == "The latest native edit was too large to retain a detailed diff."@
                        && n.tone == Tone::Yellow
                } else {
                    !changes && n.text@ == "No native file changes to show."@ && n.tone == Tone::Dim
                },
            }
        }),
{
    if let Some(s) = session {
        if s.last_turn_changes.len() > 0 {
            return None;
        }
        if s.last_turn_affected_paths.len() > 0 {
            return Some(
                note(
                    "The latest native edit was too large to retain a detailed diff.",
                    Tone::Yellow,
                ),
            );
        }
    }
    Some(note("No native file changes to show.", Tone::Dim))
}

/// What is said where the changes of the last turn cannot be undone; nothing where they can.
pub fn undo_refused(session: Option<&LocalSession>) -> (r: Option<Note>)
    ensures
        match session {
            None => r is Some && r->0.text@ == "No native file changes to undo."@ && r->0.tone
                == Tone::Dim,
            Some(s) => match r {
                None => s.last_turn_changes@.len() > 0,
                Some(n) => s.last_turn_changes@.len() == 0 && n.tone == Tone::Yellow && n.text@
                    == if s.last_turn_affected_paths@.len() == 0 {
                    "No native file changes to undo."@
                } else {
                    "The latest native edit is not undoable because its contents were too large to retain."@
                },
            },
        },
{
    match session {
        None => Some(note("No native file changes to undo.", Tone::Dim)),
        Some(s) => {
            if s.last_turn_changes.len() > 0 {
                None
            } else if s.last_turn_affected_paths.len() == 0 {
                Some(note("No native file changes to undo.", Tone::Yellow))
            } else {
                Some(
                    note(
                        "The latest native edit is not undoable because its contents were too large to retain.",
                        Tone::Yellow,
                    ),
                )
            }
        },
    }
}

/// What is said of changes that were undone.
pub fn undone_text(paths: &Vec<String>) -> (r: String)
    ensures
        r@ == "Undid the latest turn's changes to "@ + joined(texts(paths@), ", "@) + "."@,
{
    cat3("Undid the latest turn's changes to ", join(paths, ", ").as_str(), ".")
}

/// What is said of web search.
pub fn web_text(on: bool) -> (r: String)
    ensures
        r@ == "Web search is "@ + (if on {
            "on"@
        } else {
            "off"@
        }) + ". Use /web on or /web off."@,
{
    cat3(
        "Web search is ",
        if on {
            "on"
        } else {
            "off"
        },
        ". Use /web on or /web off.",
    )
}

/// Takes the limit on credits from settings that were read again; the rest of the settings stays.
/// Tells whether the limit changed.
pub fn reload_credit_limit(
    config: &mut RoninConfig,
    latest: Result<RoninConfig, ConfigError>,
) -> (r: Result<bool, String>)
    ensures
        match latest {
            Ok(settings) => {
                &&& r == Ok::<bool, String>(
                    !equal_limits(settings.max_credits, old(config).max_credits),
                )
                &&& *final(config) == (RoninConfig {
                    max_credits: settings.max_credits,
                    ..*old(config)
                })
            },
            Err(error) => r matches Err(text) && text@ == "Could not reload max_credits: "@
                + config_error_text(error@) && *final(config) == *old(config),
        },
{
    match latest {
        Ok(settings) => {
            let changed = !same_limits(settings.max_credits, config.max_credits);
            config.max_credits = settings.max_credits;
            Ok(changed)
        },
        Err(error) => Err(cat2("Could not reload max_credits: ", error.message().as_str())),
    }
}

/// What is said of the limit on credits where it changed between two turns; the limit is given as it
/// is shown.
pub fn credit_limit_note(changed: bool, limit: Option<&str>) -> (r: Option<String>)
    ensures
        match r {
            None => !changed,
            Some(text) => changed && text@ == match limit {
                Some(shown) => "Reloaded invocation limit: "@ + shown@ + " credits."@,
                None => "Reloaded invocation limit: no configured cap."@,
            },
        },
{
    if !changed {
        return None;
    }
    match limit {
        Some(shown) => Some(cat3("Reloaded invocation limit: ", shown, " credits.")),
        None => Some("Reloaded invocation limit: no configured cap.".to_owned()),
    }
}

/// The session that a turn that failed leaves.
pub open spec fn recovered(
    checkpointed: bool,
    asked: Option<LocalSession>,
    latest: Option<LocalSession>,
) -> Option<LocalSession> {
    if !checkpointed {
        None
    } else if asked is Some {
        asked
    } else {
        latest
    }
}

/// The session that a turn that failed leaves: the one that was asked for where it can be read, and
/// where it cannot the one written last; none where the turn kept nothing.
pub fn recover_session(
    checkpointed: bool,
    asked: Option<LocalSession>,
    latest: Option<LocalSession>,
) -> (r: Option<LocalSession>)
    ensures
        r == recovered(checkpointed, asked, latest),
{
    if !checkpointed {
        return None;
    }
    match asked {
        Some(session) => Some(session),
        None => latest,
    }
}

// ---------------------------------------------------------------------------------------------
// A turn
// ---------------------------------------------------------------------------------------------

/// The answer of the user to the question whether a tool may run.
#[derive(Debug, Clone, Copy, PartialEq, Eq, Structural)]
pub enum PermissionDecision {
    No,
    Yes,
    Always,
}

/// What a key does while a turn runs.
#[derive(Debug, Clone, Copy, PartialEq, Eq, Structural)]
pub enum TurnAction {
    Ignore,
    /// The key goes to the panel that asks a question.
    Question,
    /// The turn stops, and whatever is asked is refused.
    Cancel,
    /// The question whether a tool may run is answered.
    Answer(PermissionDecision),
}

/// What a key does while a turn runs.
pub open spec fn action_of(question: bool, permission: bool, key: Key, ctrl: bool) -> TurnAction {
    if key == Key::Escape || (key == Key::Char('c') && ctrl) {
        TurnAction::Cancel
    } else if question {
        TurnAction::Question
    } else if !permission {
        TurnAction::Ignore
    } else {
        match answer_by(key) {
            Some(decision) => TurnAction::Answer(decision),
            None => TurnAction::Ignore,
        }
    }
}

/// What a key does while a turn runs, with a question of a tool or for permission on the screen.
pub fn turn_action(question: bool, permission: bool, key: Key, ctrl: bool) -> (r: TurnAction)
    ensures
        r == action_of(question, permission, key, ctrl),
{
    match key {
        Key::Escape => return TurnAction::Cancel,
        Key::Char('c') => {
            if ctrl {
                return TurnAction::Cancel;
            }
        },
        _ => {},
    }
    if question {
        return TurnAction::Question;
    }
    if !permission {
        return TurnAction::Ignore;
    }
    match key {
        Key::Char('y') | Key::Char('Y') => TurnAction::Answer(PermissionDecision::Yes),
        Key::Char('a') | Key::Char('A') => TurnAction::Answer(PermissionDecision::Always),
        Key::Char('n') | Key::Char('N') => TurnAction::Answer(PermissionDecision::No),
        _ => TurnAction::Ignore,
    }
}

/// What a key answers to the question whether a tool may run.
pub open spec fn answer_by(key: Key) -> Option<PermissionDecision> {
    if key == Key::Char('y') || key == Key::Char('Y') {
        Some(PermissionDecision::Yes)
    } else if key == Key::Char('a') || key == Key::Char('A') {
        Some(PermissionDecision::Always)
    } else if key == Key::Char('n') || key == Key::Char('N') || key == Key::Escape {
        Some(PermissionDecision::No)
    } else {
        None
    }
}

/// What a key answers to the question whether a tool may run; nothing where it answers nothing.
pub fn permission_key(key: Key) -> (r: Option<PermissionDecision>)
    ensures
        r == answer_by(key),
{
    match key {
        Key::Char('y') | Key::Char('Y') => Some(PermissionDecision::Yes),
        Key::Char('a') | Key::Char('A') => Some(PermissionDecision::Always),
        Key::Char('n') | Key::Char('N') | Key::Escape => Some(PermissionDecision::No),
        _ => None,
    }
}

/// Whether an answer lets a tool run.
pub open spec fn allows(decision: PermissionDecision, kept: bool) -> bool {
    match decision {
        PermissionDecision::No => false,
        PermissionDecision::Yes => true,
        PermissionDecision::Always => kept,
    }
}

/// Whether an answer lets a tool run, where `kept` says whether it could be remembered.
pub fn decision_allows(decision: PermissionDecision, kept: bool) -> (r: bool)
    ensures
        r == allows(decision, kept),
{
    match decision {
        PermissionDecision::No => false,
        PermissionDecision::Yes => true,
        PermissionDecision::Always => kept,
    }
}

/// The arguments of the call that writes the instructions of a project.
pub fn init_args(content: &str) -> (r: Json)
    ensures
        r@ == JsonView::Object(
            Map::empty().insert("path"@, JsonView::Text("RONIN.md"@)).insert(
                "content"@,
                JsonView::Text(content@),
            ),
        ),
{
    let mut args = ObjectBuilder::new();
    args.put_text("path", "RONIN.md");
    args.put_text("content", content);
    args.finish()
}

/// What is shown of a turn while it runs.
#[derive(Debug, PartialEq, Eq)]
pub struct TurnDisplay {
    pub pending: String,
    pub segment_open: bool,
    pub reasoning: String,
    pub round: u32,
    pub total_micro: u64,
    pub context: Option<ContextShare>,
    pub running_tool: Option<String>,
    pub stopping: bool,
}

/// The mathematical value of a [`TurnDisplay`].
#[verifier::ext_equal]
pub struct DisplayView {
    pub pending: Seq<char>,
    pub segment_open: bool,
    pub reasoning: Seq<char>,
    pub round: nat,
    pub total: nat,
    pub context: Option<ContextShare>,
    pub running_tool: Option<Seq<char>>,
    pub stopping: bool,
}

impl View for TurnDisplay {
    type V = DisplayView;

    open spec fn view(&self) -> DisplayView {
        DisplayView {
            pending: self.pending@,
            segment_open: self.segment_open,
            reasoning: self.reasoning@,
            round: self.round as nat,
            total: self.total_micro as nat,
            context: self.context,
            running_tool: self.running_tool.deep_view(),
            stopping: self.stopping,
        }
    }
}

/// The rows of the whole lines of what the model writes, the rest of it, and whether the answer has
/// rows then.
pub open spec fn flushed(pending: Seq<char>, open: bool, width: nat) -> (
    Seq<RowView>,
    Seq<char>,
    bool,
)
    decreases pending.len(),
{
    let n = index_of_char(pending, '\n');
    if 0 <= n < pending.len() {
        let line = pending.take(n);
        let (rows, rest, then_open) = flushed(
            pending.skip(n + 1),
            open || !blank(line),
            width,
        );
        (answer_shown(line, open, width) + rows, rest, then_open)
    } else {
        (Seq::empty(), pending, open)
    }
}

/// The rows of all that the model wrote, and whether the answer has rows then.
pub open spec fn all_flushed(pending: Seq<char>, open: bool, width: nat) -> (Seq<RowView>, bool) {
    let (rows, rest, then_open) = flushed(pending, open, width);
    if rest.len() == 0 {
        (rows, then_open)
    } else {
        (rows + answer_shown(rest, then_open, width), then_open || !blank(rest))
    }
}

/// A text without the characters at its start that together have at most a number of bytes.
pub open spec fn without_bytes(s: Seq<char>, bytes: int) -> Seq<char>
    decreases s.len(),
{
    if s.len() > 0 && encode_scalar(s[0] as u32).len() <= bytes {
        without_bytes(s.skip(1), bytes - encode_scalar(s[0] as u32).len())
    } else {
        s
    }
}

/// The end of a text of about 2000 bytes, cut between two characters.
pub open spec fn last_bytes(s: Seq<char>) -> Seq<char> {
    without_bytes(s, encode_utf8(s).len() - 2000)
}

/// What is shown of a turn after an event, and the rows that it writes. `parsed` is what the
/// arguments of a call that starts hold as JSON.
pub open spec fn event_shown(
    m: DisplayView,
    event: AgentLoopEvent,
    parsed: Option<JsonView>,
    width: nat,
) -> (DisplayView, Seq<RowView>) {
    match event {
        AgentLoopEvent::Delta(text) => {
            let (rows, rest, open) = flushed(m.pending + text@, m.segment_open, width);
            (DisplayView { pending: rest, segment_open: open, ..m }, rows)
        },
        AgentLoopEvent::Reasoning(text) => (
            DisplayView { reasoning: last_bytes(m.reasoning + text@), ..m },
            Seq::empty(),
        ),
        AgentLoopEvent::RoundStart(round) => (
            DisplayView { round: (round + 1) as nat, ..m },
            Seq::empty(),
        ),
        AgentLoopEvent::GenerationStart(_, _) => (
            DisplayView { reasoning: Seq::empty(), ..m },
            Seq::empty(),
        ),
        AgentLoopEvent::ToolStart(name, args, _) => {
            let (rows, _) = all_flushed(m.pending, m.segment_open, width);
            (
                DisplayView {
                    pending: Seq::empty(),
                    segment_open: false,
                    running_tool: Some(name@),
                    ..m
                },
                rows + seq![
                    Seq::<StyledView>::empty(),
                    seq![
                        in_tone("● "@, Tone::Green),
                        in_bold(name@, Tone::Blue),
                        in_tone("("@ + summary_of(args@, parsed) + ")"@, Tone::Text),
                    ],
                ],
            )
        },
        AgentLoopEvent::ToolEnd(_, result, error, _, _, _) => (
            DisplayView { running_tool: None, ..m },
            tool_end_shown(result@, error, width),
        ),
        AgentLoopEvent::Citation(source) => (m, source_shown(source, width)),
        AgentLoopEvent::RoundCost(_, total) => (
            DisplayView { total: total as nat, ..m },
            Seq::empty(),
        ),
        AgentLoopEvent::RoundUsage(_, share) => (DisplayView { context: share, ..m }, Seq::empty()),
    }
}

fn append_rows(rows: &mut Vec<Row>, more: Vec<Row>)
    ensures
        final(rows).deep_view() == old(rows).deep_view() + more.deep_view(),
{
    let ghost before = rows.deep_view();
    let ghost all = more.deep_view();
    let mut more = more;
    rows.append(&mut more);
    assert(rows.deep_view() =~= before + all);
}

fn char_bytes(c: char) -> (r: usize)
    ensures
        r == encode_scalar(c as u32).len(),
{
    let n: u32 = c as u32;
    if n <= 0x7f {
        1
    } else if n <= 0x7ff {
        2
    } else if n <= 0xffff {
        3
    } else {
        4
    }
}

fn keep_last_bytes(s: &str) -> (r: String)
    ensures
        r@ == last_bytes(s@),
{
    let total = s.as_bytes().len();
    let v = chars_of(s);
    if total <= 2000 {
        assert(last_bytes(s@) == s@);
        return s.to_owned();
    }
    let mut left: usize = total - 2000;
    let mut i: usize = 0;
    assert(s@.skip(0) =~= s@);
    while i < v.len()
        invariant
            i <= v@.len(),
            v@ == s@,
            last_bytes(s@) == without_bytes(s@.skip(i as int), left as int),
        ensures
            i <= v@.len(),
            last_bytes(s@) == s@.skip(i as int),
        decreases v.len() - i,
    {
        let n = char_bytes(v[i]);
        assert(s@.skip(i as int)[0] == v@[i as int]);
        assert(s@.skip(i as int).skip(1) =~= s@.skip(i + 1));
        if n > left {
            break;
        }
        left = left - n;
        i += 1;
    }
    assert(v@.subrange(i as int, v@.len() as int) =~= s@.skip(i as int));
    text_of(&v, i, v.len())
}

impl TurnDisplay {
    /// A turn that has just started.
    pub fn new() -> (r: Self)
        ensures
            r@ == (DisplayView {
                pending: Seq::empty(),
                segment_open: false,
                reasoning: Seq::empty(),
                round: 1,
                total: 0,
                context: None,
                running_tool: None,
                stopping: false,
            }),
    {
        let r = TurnDisplay {
            pending: String::new(),
            segment_open: false,
            reasoning: String::new(),
            round: 1,
            total_micro: 0,
            context: None,
            running_tool: None,
            stopping: false,
        };
        assert(r@.pending =~= Seq::empty());
        assert(r@.reasoning =~= Seq::empty());
        r
    }

    fn write_line(&mut self, line: &str, width: usize) -> (r: Vec<Row>)
        ensures
            r.deep_view() == answer_shown(line@, old(self).segment_open, width as nat),
            final(self)@ == (DisplayView {
                segment_open: old(self).segment_open || !blank(line@),
                ..old(self)@
            }),
    {
        let rows = answer_rows(line, self.segment_open, width);
        if !is_blank(line) {
            self.segment_open = true;
        }
        rows
    }

    /// Writes the whole lines of what the model wrote.
    pub fn flush(&mut self, width: usize) -> (r: Vec<Row>)
        ensures
            ({
                let (rows, rest, open) = flushed(
                    old(self).pending@,
                    old(self).segment_open,
                    width as nat,
                );
                &&& r.deep_view() == rows
                &&& final(self)@ == (DisplayView {
                    pending: rest,
                    segment_open: open,
                    ..old(self)@
                })
            }),
    {
        let ghost expected = flushed(self.pending@, self.segment_open, width as nat);
        let ghost before = self@;
        let v = chars_of(self.pending.as_str());
        let ghost all = v@;
        let mut rows = no_rows();
        let mut from: usize = 0;
        let mut i: usize = 0;
        assert(all.skip(0) =~= all);
        assert(rows.deep_view() + flushed(all, self.segment_open, width as nat).0 =~= expected.0);
        proof {
            index_of_char_is_first(all, '\n');
        }
        while i < v.len()
            invariant
                from <= i <= v@.len(),
                all == v@,
                all == before.pending,
                before == old(self)@,
                self@ == (DisplayView { segment_open: self.segment_open, ..before }),
                forall|k: int| from <= k < i ==> all[k] != '\n',
                ({
                    let (more, rest, open) = flushed(
                        all.skip(from as int),
                        self.segment_open,
                        width as nat,
                    );
                    expected == (rows.deep_view() + more, rest, open)
                }),
            decreases v.len() - i,
        {
            if v[i] == '\n' {
                let line = text_of(&v, from, i);
                let ghost t = all.skip(from as int);
                let ghost now = rows.deep_view();
                let ghost open = self.segment_open;
                proof {
                    index_of_char_is_first(t, '\n');
                    assert(t[i - from] == '\n');
                    assert(index_of_char(t, '\n') == i - from) by {
                        let n = index_of_char(t, '\n');
                        if n < i - from {
                            assert(all[from + n] == t[n]);
                        }
                    }
                    assert(line@ =~= t.take(i - from));
                    assert(t.skip(i - from + 1) =~= all.skip(i + 1));
                }
                let more = self.write_line(line.as_str(), width);
                append_rows(&mut rows, more);
                from = i + 1;
                proof {
                    let (later_rows, rest, then_open) = flushed(
                        all.skip(from as int),
                        self.segment_open,
                        width as nat,
                    );
                    assert(rows.deep_view() + later_rows =~= now + (answer_shown(
                        line@,
                        open,
                        width as nat,
                    ) + later_rows));
                }
            }
            i += 1;
        }
        let ghost t = all.skip(from as int);
        proof {
            index_of_char_is_first(t, '\n');
            let n = index_of_char(t, '\n');
            if n < t.len() {
                assert(all[from + n] == t[n]);
            }
            assert(rows.deep_view() + Seq::<RowView>::empty() =~= rows.deep_view());
        }
        self.pending = text_of(&v, from, v.len());
        assert(self.pending@ =~= t);
        rows
    }

    /// Writes all that the model wrote.
    pub fn flush_all(&mut self, width: usize) -> (r: Vec<Row>)
        ensures
            ({
                let (rows, open) = all_flushed(
                    old(self).pending@,
                    old(self).segment_open,
                    width as nat,
                );
                &&& r.deep_view() == rows
                &&& final(self)@ == (DisplayView {
                    pending: Seq::empty(),
                    segment_open: open,
                    ..old(self)@
                })
            }),
    {
        let mut rows = self.flush(width);
        if self.pending.as_str().is_empty() {
            assert(self.pending@ =~= Seq::empty());
            return rows;
        }
        let mut line = String::new();
        core::mem::swap(&mut self.pending, &mut line);
        assert(self.pending@ =~= Seq::empty());
        let more = self.write_line(line.as_str(), width);
        append_rows(&mut rows, more);
        rows
    }

    /// Takes the start of a call, with what it does as it is shown.
    pub fn start_tool(&mut self, name: &str, summary: &str, width: usize) -> (r: Vec<Row>)
        ensures
            r.deep_view() == all_flushed(
                old(self).pending@,
                old(self).segment_open,
                width as nat,
            ).0 + seq![
                Seq::<StyledView>::empty(),
                seq![
                    in_tone("● "@, Tone::Green),
                    in_bold(name@, Tone::Blue),
                    in_tone("("@ + summary@ + ")"@, Tone::Text),
                ],
            ],
            final(self)@ == (DisplayView {
                pending: Seq::empty(),
                segment_open: false,
                running_tool: Some(name@),
                ..old(self)@
            }),
    {
        let mut rows = self.flush_all(width);
        self.segment_open = false;
        append_rows(&mut rows, tool_start_rows(name, summary));
        self.running_tool = Some(name.to_owned());
        rows
    }

    /// Takes an event of the loop; gives the rows that it writes.
    pub fn handle_event(&mut self, event: &AgentLoopEvent, width: usize) -> (r: Vec<Row>)
        requires
            event matches AgentLoopEvent::RoundStart(round) ==> round < u32::MAX,
        ensures
            (final(self)@, r.deep_view()) == event_shown(
                old(self)@,
                *event,
                match event {
                    AgentLoopEvent::ToolStart(_, args, _) => json_in(args@),
                    _ => None,
                },
                width as nat,
            ),
    {
        match event {
            AgentLoopEvent::Delta(text) => {
                self.pending.append(text.as_str());
                self.flush(width)
            },
            AgentLoopEvent::Reasoning(text) => {
                let all = cat2(self.reasoning.as_str(), text.as_str());
                self.reasoning = keep_last_bytes(all.as_str());
                no_rows()
            },
            AgentLoopEvent::RoundStart(round) => {
                self.round = *round + 1;
                no_rows()
            },
            AgentLoopEvent::GenerationStart(_, _) => {
                self.reasoning = String::new();
                assert(self.reasoning@ =~= Seq::empty());
                no_rows()
            },
            AgentLoopEvent::ToolStart(name, args, _) => {
                let summary = tool_args_summary(args.as_str());
                self.start_tool(name.as_str(), summary.as_str(), width)
            },
            AgentLoopEvent::ToolEnd(_, result, error, _, _, _) => {
                self.running_tool = None;
                tool_end_rows(result.as_str(), *error, width)
            },
            AgentLoopEvent::Citation(source) => source_rows(source, width),
            AgentLoopEvent::RoundCost(_, total) => {
                self.total_micro = *total;
                no_rows()
            },
            AgentLoopEvent::RoundUsage(_, share) => {
                self.context = *share;
                no_rows()
            },
        }
    }
}

// ---------------------------------------------------------------------------------------------
// Laws
// ---------------------------------------------------------------------------------------------

/// An answer is shown the same however the pieces in which it comes are cut: what is written of two
/// pieces at once is what is written of the first and then of the second.
pub proof fn answers_do_not_depend_on_pieces(a: Seq<char>, b: Seq<char>, open: bool, width: nat)
    ensures
        ({
            let (first, rest, then_open) = flushed(a, open, width);
            let (second, end, last_open) = flushed(rest + b, then_open, width);
            flushed(a + b, open, width) == (first + second, end, last_open)
        }),
    decreases a.len(),
{
    let n = index_of_char(a, '\n');
    let all = a + b;
    index_of_char_is_first(a, '\n');
    index_of_char_is_first(all, '\n');
    if n < a.len() {
        let m = index_of_char(all, '\n');
        assert(all[n] == '\n');
        assert(m == n) by {
            if m < n {
                assert(all[m] == a[m]);
            }
        }
        let line = a.take(n);
        assert(all.take(n) =~= line);
        assert(all.skip(n + 1) =~= a.skip(n + 1) + b);
        answers_do_not_depend_on_pieces(a.skip(n + 1), b, open || !blank(line), width);
        let (first, rest, then_open) = flushed(a.skip(n + 1), open || !blank(line), width);
        let (second, end, last_open) = flushed(rest + b, then_open, width);
        assert(answer_shown(line, open, width) + (first + second) =~= answer_shown(
            line,
            open,
            width,
        ) + first + second);
    } else {
        let (second, end, last_open) = flushed(all, open, width);
        assert(Seq::<RowView>::empty() + second =~= second);
    }
}

/// White space around a line does not matter, and a line that starts with no slash is sent as it
/// stands.
pub proof fn prompts_are_sent_as_written(input: Seq<char>)
    requires
        trimmed(input).len() > 0,
    ensures
        !begins_with(trimmed(input), "/"@) ==> command_of(input) == CommandView::Prompt(
            trimmed(input),
        ),
        begins_with(trimmed(input), "/"@) ==> !(command_of(input) is Prompt),
        command_of(input) matches CommandView::Unknown(text) ==> text == trimmed(input),
{
    let value = trimmed(input);
    if !begins_with(value, "/"@) {
        reveal_strlit("/");
        assert(value[0] != '/') by {
            if value[0] == '/' {
                assert(value.subrange(0, 1) =~= "/"@);
            }
        }
        reveal_strlit("/help");
        reveal_strlit("/exit");
        reveal_strlit("/quit");
        reveal_strlit("/cost");
        reveal_strlit("/clear");
        reveal_strlit("/diff");
        reveal_strlit("/undo");
        reveal_strlit("/compact");
        reveal_strlit("/web");
        reveal_strlit("/web on");
        reveal_strlit("/web off");
        reveal_strlit("/models");
        reveal_strlit("/model");
        reveal_strlit("/model ");
        reveal_strlit("/init");
        assert("/help"@[0] == '/' && "/exit"@[0] == '/' && "/quit"@[0] == '/');
        assert("/cost"@[0] == '/' && "/clear"@[0] == '/' && "/diff"@[0] == '/');
        assert("/undo"@[0] == '/' && "/compact"@[0] == '/' && "/web"@[0] == '/');
        assert("/web on"@[0] == '/' && "/web off"@[0] == '/' && "/models"@[0] == '/');
        assert("/model"@[0] == '/' && "/model "@[0] == '/' && "/init"@[0] == '/');
        assert(!begins_with(value, "/model "@)) by {
            if begins_with(value, "/model "@) {
                assert(value.subrange(0, 7)[0] == value[0]);
            }
        }
        assert(!begins_with(value, "/init"@)) by {
            if begins_with(value, "/init"@) {
                assert(value.subrange(0, 5)[0] == value[0]);
            }
        }
    }
}

/// Each command is asked for by its word alone.
pub proof fn commands_are_told_by_their_words(input: Seq<char>)
    ensures
        command_of(input) is Nothing <==> trimmed(input).len() == 0,
        command_of(input) is Help <==> trimmed(input) == "/help"@,
        command_of(input) is Exit <==> trimmed(input) == "/exit"@ || trimmed(input) == "/quit"@,
        command_of(input) is Cost <==> trimmed(input) == "/cost"@,
        command_of(input) is Clear <==> trimmed(input) == "/clear"@,
        command_of(input) is Diff <==> trimmed(input) == "/diff"@,
        command_of(input) is Undo <==> trimmed(input) == "/undo"@,
        command_of(input) is Compact <==> trimmed(input) == "/compact"@,
        command_of(input) is WebStatus <==> trimmed(input) == "/web"@,
        command_of(input) is WebOn <==> trimmed(input) == "/web on"@,
        command_of(input) is WebOff <==> trimmed(input) == "/web off"@,
        command_of(input) is PickModel <==> trimmed(input) == "/models"@ || trimmed(input)
            == "/model"@,
        command_of(input) matches CommandView::SetModel(model) ==> exists|rest: Seq<char>|
            trimmed(input) == "/model "@ + rest && model == #[trigger] trimmed(rest),
{
    reveal_strlit("/help");
    reveal_strlit("/exit");
    reveal_strlit("/quit");
    reveal_strlit("/cost");
    reveal_strlit("/clear");
    reveal_strlit("/diff");
    reveal_strlit("/undo");
    reveal_strlit("/compact");
    reveal_strlit("/web");
    reveal_strlit("/web on");
    reveal_strlit("/web off");
    reveal_strlit("/models");
    reveal_strlit("/model");
    assert("/help"@.len() == 5 && "/exit"@.len() == 5 && "/quit"@.len() == 5);
    assert("/cost"@.len() == 5 && "/diff"@.len() == 5 && "/undo"@.len() == 5);
    assert("/clear"@.len() == 6 && "/model"@.len() == 6);
    assert("/models"@.len() == 7 && "/web on"@.len() == 7);
    assert("/compact"@.len() == 8 && "/web off"@.len() == 8 && "/web"@.len() == 4);
    assert("/help"@[1] == 'h' && "/exit"@[1] == 'e' && "/quit"@[1] == 'q');
    assert("/cost"@[1] == 'c' && "/diff"@[1] == 'd' && "/undo"@[1] == 'u');
    assert("/clear"@[1] == 'c' && "/model"@[1] == 'm');
    assert("/models"@[1] == 'm' && "/web on"@[1] == 'w');
    assert("/compact"@[1] == 'c' && "/web off"@[1] == 'w');
    let value = trimmed(input);
    if command_of(input) is SetModel {
        let rest = after_prefix(value, "/model "@)->0;
        assert(value =~= "/model "@ + rest) by {
            let n = "/model "@.len() as int;
            assert(value.subrange(0, n) == "/model "@);
            assert(value =~= value.subrange(0, n) + value.skip(n));
        }
        assert(command_of(input) == CommandView::SetModel(trimmed(rest)));
    }
}

/// Permissions are skipped only where the flag asks for it.
pub proof fn only_the_flag_skips_permissions(dangerous: bool, configured: PermissionMode)
    ensures
        starting_mode(dangerous, configured) == PermissionMode::Yolo <==> dangerous,
        !dangerous && configured != PermissionMode::Yolo ==> starting_mode(dangerous, configured)
            == configured,
{
}

/// A tool is let run only by a key that says so, and never while another question is asked; escape
/// always stops the turn.
pub proof fn only_a_yes_key_answers_yes(
    question: bool,
    permission: bool,
    key: Key,
    ctrl: bool,
    kept: bool,
)
    ensures
        action_of(question, permission, Key::Escape, ctrl) == TurnAction::Cancel,
        action_of(question, permission, Key::Char('c'), true) == TurnAction::Cancel,
        action_of(question, permission, key, ctrl) matches TurnAction::Answer(decision) ==> {
            &&& permission && !question
            &&& allows(decision, kept) ==> key == Key::Char('y') || key == Key::Char('Y') || kept
                && (key == Key::Char('a') || key == Key::Char('A'))
        },
        permission && !question ==> action_of(question, permission, Key::Char('y'), false)
            == TurnAction::Answer(PermissionDecision::Yes),
        permission && !question ==> action_of(question, permission, Key::Char('n'), false)
            == TurnAction::Answer(PermissionDecision::No),
        answer_by(Key::Escape) == Some(PermissionDecision::No),
        answer_by(key) matches Some(decision) ==> (allows(decision, kept) ==> key == Key::Char('y')
            || key == Key::Char('Y') || kept && (key == Key::Char('a') || key == Key::Char('A'))),
{
}

/// A turn that kept something leaves a session where one can be read, and the one asked for before
/// any other.
pub proof fn what_was_kept_is_recovered(
    checkpointed: bool,
    asked: Option<LocalSession>,
    latest: Option<LocalSession>,
)
    ensures
        recovered(checkpointed, asked, latest) is Some <==> checkpointed && (asked is Some || latest
            is Some),
        checkpointed && asked is Some ==> recovered(checkpointed, asked, latest) == asked,
        checkpointed && asked is None ==> recovered(checkpointed, asked, latest) == latest,
{
}

/// What is shown of the thoughts of the model is the end of them, and all of them where they are
/// short.
pub proof fn thoughts_are_shown_from_their_end(s: Seq<char>, bytes: int)
    ensures
        without_bytes(s, bytes).len() <= s.len(),
        without_bytes(s, bytes) == s.skip(s.len() - without_bytes(s, bytes).len()),
        encode_utf8(s).len() <= 2000 ==> last_bytes(s) == s,
    decreases s.len(),
{
    if s.len() > 0 && encode_scalar(s[0] as u32).len() <= bytes {
        let n = encode_scalar(s[0] as u32).len();
        thoughts_are_shown_from_their_end(s.skip(1), bytes - n);
        let end = without_bytes(s.skip(1), bytes - n);
        assert(s.skip(1).skip(s.len() - 1 - end.len()) =~= s.skip(s.len() - end.len()));
    } else {
        assert(s.skip(0) =~= s);
    }
}

/// An event changes what is shown of its own matter and nothing else: what is written stays until
/// it is shown, thoughts start afresh with each generation, a tool runs from its start to its end,
/// and costs and the context are those told last.
pub proof fn events_change_what_they_are_about(
    m: DisplayView,
    text: String,
    name: String,
    args: String,
    id: String,
    parsed: Option<JsonView>,
    cost: u64,
    total: u64,
    width: nat,
)
    ensures
        ({
            let (after, rows) = event_shown(
                m,
                AgentLoopEvent::ToolStart(name, args, id),
                parsed,
                width,
            );
            &&& after.pending.len() == 0 && !after.segment_open && after.running_tool == Some(name@)
            &&& all_flushed(m.pending, m.segment_open, width).0.is_prefix_of(rows)
            &&& rows.last()[1].text == name@
            &&& after.reasoning == m.reasoning && after.total == m.total && after.round == m.round
        }),
        event_shown(m, AgentLoopEvent::RoundCost(cost, total), parsed, width).0 == (DisplayView {
            total: total as nat,
            ..m
        }),
        ({
            let (after, rows) = event_shown(m, AgentLoopEvent::Delta(text), parsed, width);
            &&& after == (DisplayView {
                pending: after.pending,
                segment_open: after.segment_open,
                ..m
            })
            &&& !(m.pending + text@).contains('\n') ==> after.pending == m.pending + text@ && rows.len()
                == 0
            &&& !after.pending.contains('\n')
        }),
        ({
            let (after, rows) = event_shown(m, AgentLoopEvent::Reasoning(text), parsed, width);
            &&& rows.len() == 0 && after.pending == m.pending && after.running_tool
                == m.running_tool
            &&& encode_utf8(m.reasoning + text@).len() <= 2000 ==> after.reasoning == m.reasoning
                + text@
        }),
{
    what_waits_has_no_line_end(m.pending + text@, m.segment_open, width);
    thoughts_are_shown_from_their_end(m.reasoning + text@, 0);
    if !(m.pending + text@).contains('\n') {
        index_of_char_is_first(m.pending + text@, '\n');
    }
}

proof fn what_waits_has_no_line_end(s: Seq<char>, open: bool, width: nat)
    ensures
        !flushed(s, open, width).1.contains('\n'),
    decreases s.len(),
{
    let n = index_of_char(s, '\n');
    index_of_char_is_first(s, '\n');
    if n < s.len() {
        what_waits_has_no_line_end(s.skip(n + 1), open || !blank(s.take(n)), width);
    } else {
        assert(!s.contains('\n'));
    }
}

} // verus!
