//! Turns of a session: their context, their permissions and what is kept of them.
use ronin::config::{CreditLimit, PermissionMode, RoninConfig};
use ronin::context::{
    init_content, initial_messages, load_project_instructions, new_content, read_instructions,
};
use ronin::digest::digest_text;
use ronin::json::parse_json;
use ronin::loop_runner::{
    AgentLoopCheckpoint, AgentLoopEvent, AgentLoopResult, AgentStopReason, ContextShare,
};
use ronin::permissions::{
    grant, grant_id, is_listed, matches_rule, terminal_answer, PermissionController, StoreFile,
    TerminalAnswer, Workspace, WorkspaceGrants,
};
use ronin::run::{
    apply_checkpoint, begin_turn, compact_messages, compaction_request, finish_compaction,
    finish_session, internal_model, loop_budget, needs_compaction, offered_tools, run_mode,
    scoped_session_id, select_model, sync_warning, title_of, SummaryStream, SyncOutcome,
    TurnRecorder,
};
use ronin::storage::{LocalSession, SessionState, Timestamp};
use ronin::tool::{AgentToolKind, FileChange, ToolPermissionDescription, ToolResultMetadata};
use ronin::types::{
    AgentMessage, FinishReason, GenerationStreamEvent, ModelSummary, SourceCitation, TokenUsage,
};

fn file(text: &str) -> Result<Option<String>, String> {
    Ok(Some(text.to_string()))
}

#[test]
fn ronin_instructions_take_precedence_over_agents() {
    let value = load_project_instructions(file("ronin rules"), file("agent rules")).unwrap().unwrap();
    assert_eq!(value.source, "RONIN.md");
    assert_eq!(value.content, "ronin rules");
}

#[test]
fn instructions_are_found_or_refused() {
    let value = load_project_instructions(Ok(None), file("agent rules")).unwrap().unwrap();
    assert_eq!(value.source, "AGENTS.md");
    assert_eq!(load_project_instructions(Ok(None), Ok(None)), Ok(None));
    assert_eq!(
        load_project_instructions(Err("denied".to_string()), file("x")),
        Err("RONIN.md could not be read: denied".to_string())
    );
    assert_eq!(
        read_instructions("A", file("x"), Some("token")),
        Err("A was not loaded because it resembles a token.".to_string())
    );
    let secret = load_project_instructions(file(&format!("ghp_{}", "a".repeat(36))), Ok(None));
    assert!(secret.unwrap_err().starts_with("RONIN.md was not loaded because it resembles a "));
}

#[test]
fn conversations_start_with_the_safety_prompt() {
    let (bare, warning) = initial_messages(Ok(None));
    assert_eq!(bare.len(), 1);
    assert_eq!(warning, None);
    let (messages, _) = initial_messages(load_project_instructions(file("rules"), Ok(None)));
    assert_eq!(messages[0], bare[0]);
    assert_eq!(
        messages[1],
        AgentMessage::system("Project instructions from RONIN.md:\n\nrules".to_string())
    );
    let (messages, warning) = initial_messages(Err("no".to_string()));
    assert_eq!(messages, bare);
    assert_eq!(warning.as_deref(), Some("no"));
}

#[test]
fn instructions_are_begun() {
    let content = init_content("/work/ronin", false, false).unwrap();
    assert!(content.starts_with("# ronin\n\n## Project instructions\n"));
    assert!(init_content("/", false, false).unwrap().starts_with("# project\n"));
    assert_eq!(
        init_content("/work", true, false),
        Err("RONIN.md already exists. Use /init --force to replace it.".to_string())
    );
    assert!(init_content("/work", true, true).is_ok());
    assert!(new_content(Some("p".to_string()), false, false).unwrap().starts_with("# p\n"));
    assert!(new_content(None, true, true).unwrap().starts_with("# project\n"));
    assert!(new_content(None, true, false).is_err());
}

fn controller(config: RoninConfig, dangerous: bool) -> PermissionController {
    PermissionController::new("/work".to_string(), config, dangerous, "/p.json", StoreFile::Missing)
}

fn with_mode(mode: PermissionMode) -> RoninConfig {
    RoninConfig { permission_mode: mode, ..RoninConfig::default() }
}

fn described(key: &str) -> ToolPermissionDescription {
    ToolPermissionDescription {
        summary: "s".to_string(),
        preview: None,
        persistence_key: key.to_string(),
        warning: None,
    }
}

fn shell(policy: &PermissionController, command: &str) -> Option<bool> {
    policy.preauthorize(AgentToolKind::Shell, "bash", Some(&described(command)))
}

fn edit(policy: &PermissionController) -> Option<bool> {
    policy.preauthorize(AgentToolKind::Edit, "write_file", Some(&described("a")))
}

#[test]
fn modes_decide_what_runs() {
    let read = |p: &PermissionController| p.preauthorize(AgentToolKind::Read, "grep", None);
    let manual = controller(with_mode(PermissionMode::Default), false);
    assert_eq!(read(&manual), Some(true));
    assert_eq!(edit(&manual), None);
    assert_eq!(shell(&manual, "ls"), None);
    assert!(!manual.authorize(AgentToolKind::Shell, "bash", Some(&described("ls"))));
    let plan = controller(with_mode(PermissionMode::Plan), false);
    assert_eq!(read(&plan), Some(true));
    assert_eq!(edit(&plan), Some(false));
    assert_eq!(shell(&plan, "ls"), Some(false));
    let edits = controller(with_mode(PermissionMode::AcceptEdits), false);
    assert_eq!(edit(&edits), Some(true));
    assert_eq!(shell(&edits, "ls"), None);
    let auto = controller(with_mode(PermissionMode::Auto), false);
    assert_eq!(shell(&auto, "ls"), Some(true));
    assert_eq!(shell(&controller(with_mode(PermissionMode::Yolo), true), "ls"), Some(true));
    assert_eq!(shell(&controller(with_mode(PermissionMode::Yolo), false), "ls"), Some(false));
}

#[test]
fn rules_come_before_modes() {
    let mut config = with_mode(PermissionMode::Auto);
    config.denied_commands = vec!["rm  -rf".to_string()];
    config.denied_tools = vec!["write_file".to_string()];
    let policy = controller(config, false);
    assert_eq!(shell(&policy, "rm -rf /"), Some(false));
    assert_eq!(shell(&policy, "rm -rfv"), Some(true));
    assert_eq!(edit(&policy), Some(false));
    let mut config = with_mode(PermissionMode::Plan);
    config.allowed_commands = vec!["git status".to_string()];
    assert_eq!(shell(&controller(config, false), "git   status -s"), Some(true));
    assert!(matches_rule("a  b", &vec!["a".to_string()]));
    assert!(!matches_rule("ab", &vec!["a".to_string(), String::new()]));
    assert!(is_listed(&vec!["a".to_string()], "a"));
}

#[test]
fn grants_are_kept_and_taken_back() {
    let mut policy = controller(with_mode(PermissionMode::Default), false);
    policy.persist_grant(AgentToolKind::Shell, "bash", &described("ls   -l"));
    policy.persist_grant(AgentToolKind::Shell, "bash", &described("ls -l"));
    policy.persist_grant(AgentToolKind::Edit, "write_file", &described("a"));
    assert_eq!(shell(&policy, "ls -l"), Some(true));
    assert_eq!(shell(&policy, "ls"), None);
    assert_eq!(edit(&policy), Some(true));
    let kept = policy.grants();
    assert_eq!(
        kept.iter().map(|g| (g.kind.as_str(), g.value.as_str())).collect::<Vec<_>>(),
        vec![("command", "ls -l"), ("tool", "write_file")]
    );
    assert_eq!(kept[0].id, grant_id(&policy.key, "command", "ls -l"));
    assert!(policy.revoke_grant(&kept[0].id));
    assert_eq!(policy.grants(), kept[1..].to_vec());
    assert!(!policy.revoke_grant(&kept[0].id));
    assert_eq!(shell(&policy, "ls -l"), None);
    assert_eq!(policy.reset_workspace(), 1);
    assert_eq!(policy.reset_workspace(), 0);
    assert!(policy.grants().is_empty());
}

#[test]
fn stores_belong_to_workspaces() {
    let other = Workspace {
        key: "k".to_string(),
        grants: WorkspaceGrants {
            path: "/else".to_string(),
            allowed_tools: vec!["write_file".to_string()],
            allowed_commands: vec![],
        },
    };
    let mut policy = PermissionController::new(
        "/work".to_string(),
        RoninConfig::default(),
        false,
        "/p.json",
        StoreFile::Loaded(vec![other]),
    );
    assert_eq!(edit(&policy), None);
    assert_eq!(policy.grants(), vec![grant("k", "/else", "tool", "write_file")]);
    assert_eq!(policy.key, digest_text("/work"));
    assert!(policy.take_warnings().is_empty());
    let mut broken = PermissionController::new(
        "/work".to_string(),
        RoninConfig::default(),
        false,
        "/p.json",
        StoreFile::Malformed,
    );
    assert_eq!(
        broken.take_warnings(),
        vec!["Ignoring malformed permission store at /p.json; no grants were loaded."]
    );
    assert!(broken.take_warnings().is_empty());
}

#[test]
fn answers_at_the_terminal_are_read() {
    assert_eq!(terminal_answer(" Y\n"), TerminalAnswer::Allow);
    assert_eq!(terminal_answer("yes"), TerminalAnswer::Allow);
    assert_eq!(terminal_answer("always"), TerminalAnswer::Always);
    assert_eq!(terminal_answer("a"), TerminalAnswer::Always);
    assert_eq!(terminal_answer(""), TerminalAnswer::Deny);
    assert_eq!(terminal_answer("yep"), TerminalAnswer::Deny);
}

fn model(id: &str, tools: bool, window: u64) -> ModelSummary {
    ModelSummary {
        model_id: id.to_string(),
        display_name: id.to_string(),
        category: String::new(),
        supports_tools: tools,
        context_window: window,
        credit_price_micro: None,
    }
}

fn session(messages: Vec<AgentMessage>) -> LocalSession {
    LocalSession::create(
        "s".to_string(),
        "provider".to_string(),
        "/work",
        "big",
        messages,
        Timestamp { seconds: 0, nanos: 0 },
    )
}

fn user(text: &str) -> AgentMessage {
    AgentMessage::user(text.to_string())
}

fn system(text: &str) -> AgentMessage {
    AgentMessage::system(text.to_string())
}

#[test]
fn models_must_have_tools() {
    let models = vec![model("plain", false, 1), model("big", true, 1)];
    assert_eq!(select_model(&models, "big").unwrap().model_id, "big");
    assert_eq!(
        select_model(&models, "plain").unwrap_err(),
        "Model plain is unavailable or does not support tools."
    );
    assert_eq!(run_mode(true, PermissionMode::Plan), PermissionMode::Yolo);
    assert_eq!(run_mode(false, PermissionMode::Plan), PermissionMode::Plan);
    let names = |mode| -> Vec<String> {
        offered_tools(mode).into_iter().map(|tool| tool.definition.name).collect()
    };
    assert_eq!(names(PermissionMode::Plan), vec!["read_file", "list_dir", "glob", "grep", "ask_user"]);
    assert_eq!(
        names(PermissionMode::Default),
        vec![
            "read_file", "list_dir", "glob", "grep", "ask_user", "write_file", "edit_file",
            "multi_edit", "bash"
        ]
    );
}

#[test]
fn long_conversations_are_compacted() {
    let models = vec![model("big", true, 100), model("small", true, 10)];
    let mut kept = session(vec![user("a"), user("b")]);
    assert!(!needs_compaction(&models, &models[0], &kept, true));
    assert!(needs_compaction(&models, &models[1], &kept, false));
    kept.last_usage = Some(TokenUsage {
        input_tokens: 1,
        output_tokens: 1,
        cached_tokens: None,
        cache_write_tokens: None,
    });
    assert!(!needs_compaction(&models, &models[1], &kept, false));
    assert!(needs_compaction(&models, &models[1], &kept, true));
    kept.context = Some(ContextShare { bits: 0, needs_compaction: true, at_limit: false });
    assert!(needs_compaction(&models, &models[0], &kept, false));
    let (chosen, warning) = internal_model(&models, &models[0], &Some("small".to_string()));
    assert_eq!(chosen.model_id, "small");
    assert!(warning.is_none());
    let (chosen, warning) = internal_model(&models, &models[0], &None);
    assert_eq!(chosen.model_id, "big");
    assert_eq!(
        warning.unwrap().message,
        "No eligible internal_model is configured; using big."
    );
}

#[test]
fn compaction_keeps_instructions_and_the_last_turn() {
    let messages = vec![
        system("safety"),
        system("[RONIN_COMPACTED_CONTEXT]\nold"),
        user("first"),
        user("last"),
        AgentMessage::Tool { tool_call_id: "1".to_string(), content: "r".to_string() },
    ];
    assert_eq!(
        compact_messages(&messages, " summary \n"),
        vec![
            system("safety"),
            system("[RONIN_COMPACTED_CONTEXT]\nsummary"),
            user("last"),
            messages[4].clone(),
        ]
    );
    let limit = |micro, positive| Some(CreditLimit { bits: 0, micro, positive });
    let request = compaction_request(&session(messages.clone()), "m", limit(7, true)).unwrap();
    assert_eq!(request.session_id.as_deref(), Some("provider:compact"));
    assert_eq!(request.max_output_tokens, Some(4096));
    assert_eq!(request.max_cost_micro, Some(7));
    assert_eq!(request.messages.len(), 7);
    assert_eq!(
        compaction_request(&session(messages.clone()), "m", limit(0, false)),
        Err("The session credit budget is exhausted; compaction cannot run.".to_string())
    );
    let mut kept = session(messages);
    let mut stream = SummaryStream::new();
    stream.receive(GenerationStreamEvent::Delta { text: "sum".to_string() }).unwrap();
    stream
        .receive(GenerationStreamEvent::Done {
            message_id: None,
            usage: None,
            cost_micro: Some(9),
            finish_reason: FinishReason::Complete,
        })
        .unwrap();
    finish_compaction(&mut kept, stream).unwrap();
    assert_eq!(kept.cost_micro, 9);
    assert_eq!(kept.compaction_count, 1);
    assert_eq!(kept.messages[1], system("[RONIN_COMPACTED_CONTEXT]\nsum"));
    assert_eq!(
        finish_compaction(&mut kept, SummaryStream::new()),
        Err("Internal generation did not complete.".to_string())
    );
    let mut failed = SummaryStream::new();
    assert_eq!(
        failed.receive(GenerationStreamEvent::Error {
            code: "c".to_string(),
            message: "m".to_string(),
            retryable: false,
        }),
        Err("m".to_string())
    );
}

#[test]
fn scoped_ids_are_bounded() {
    assert_eq!(scoped_session_id("a", "compact"), "a:compact");
    let long = scoped_session_id(&"x".repeat(300), "compact");
    assert_eq!(long.len(), 256);
    assert!(long.ends_with("x:compact"));
}

#[test]
fn budgets_count_what_compaction_cost() {
    let limit = Some(CreditLimit { bits: 0, micro: 10, positive: true });
    assert_eq!(loop_budget(None, 5, 0), Ok(None));
    assert_eq!(loop_budget(limit, 5, 2), Ok(Some(7)));
    assert_eq!(
        loop_budget(limit, 12, 2),
        Err("The invocation credit budget was exhausted by context compaction.".to_string())
    );
}

#[test]
fn turns_begin_with_the_prompt() {
    assert_eq!(title_of("\n  fix the bug \nmore").as_deref(), Some("fix the bug"));
    assert_eq!(title_of(&"é".repeat(100)).unwrap().chars().count(), 80);
    assert_eq!(title_of(" \n"), None);
    let mut kept = session(vec![system("safety")]);
    let messages = begin_turn(&mut kept, "go");
    assert_eq!(messages, vec![system("safety"), user("go")]);
    assert_eq!(kept.messages.len(), 1);
    assert_eq!(kept.pending_turn_base, Some(1));
    assert_eq!(kept.title.as_deref(), Some("go"));
    assert_eq!(begin_turn(&mut kept, " "), vec![system("safety")]);
}

fn change(path: &str, before: Option<&str>, after: &str) -> FileChange {
    FileChange {
        path: path.to_string(),
        before: before.map(str::to_string),
        after: after.to_string(),
    }
}

fn changed(changes: Vec<FileChange>) -> ToolResultMetadata {
    ToolResultMetadata {
        affected_paths: changes.iter().map(|c| c.path.clone()).collect(),
        file_changes: changes,
        ..ToolResultMetadata::default()
    }
}

fn start(turn: &mut TurnRecorder, id: &str, command: &str) {
    let event = AgentLoopEvent::ToolStart(
        "bash".to_string(),
        format!("{{\"command\":\"{command}\"}}"),
        id.to_string(),
    );
    turn.record(&event, "activity", "now");
}

fn end(turn: &mut TurnRecorder, id: &str, error: bool, metadata: ToolResultMetadata) {
    let event = AgentLoopEvent::ToolEnd(
        "bash".to_string(),
        "out".to_string(),
        error,
        id.to_string(),
        1,
        metadata,
    );
    turn.record(&event, "activity", "now");
}

#[test]
fn turns_record_what_was_done() {
    let mut turn = TurnRecorder::new(vec![]);
    start(&mut turn, "1", "ls");
    end(&mut turn, "1", false, changed(vec![change("a", Some("0"), "1")]));
    end(&mut turn, "2", false, changed(vec![change("a", Some("1"), "2"), change("b", None, "x")]));
    start(&mut turn, "3", "rm");
    end(&mut turn, "3", true, changed(vec![change("c", None, "x")]));
    assert_eq!(turn.commands, vec!["ls"]);
    assert_eq!(turn.affected, vec!["a", "b"]);
    assert_eq!(turn.changes, vec![change("a", Some("0"), "2"), change("b", None, "x")]);
    assert!(turn.pending.is_empty());
    assert_eq!(turn.activity.len(), 3);
    assert_eq!(turn.activity[0].label, "Completed bash");
    assert_eq!(turn.activity[2].label, "Failed bash");
    let source =
        SourceCitation { url: "u".to_string(), title: "t".to_string(), content: None };
    turn.record(&AgentLoopEvent::Citation(source), "c", "now");
    assert_eq!(turn.activity[3].kind, "citation");
    assert_eq!(turn.activity[3].id, "c");
    for _ in 0..600 {
        end(&mut turn, "4", false, ToolResultMetadata::default());
    }
    assert_eq!(turn.activity.len(), 500);
    let parsed = parse_json("{\"command\":\"x\"}");
    turn.start_call("grep", "5", &parsed);
    assert!(turn.pending.is_empty());
}

fn result(reason: AgentStopReason) -> AgentLoopResult {
    AgentLoopResult {
        messages: vec![user("go")],
        final_text: String::new(),
        rounds: 1,
        cost_micro: 5,
        last_usage: None,
        context: None,
        stop_reason: reason,
        sources: vec![],
    }
}

#[test]
fn checkpoints_and_ends_are_kept() {
    let mut kept = session(vec![]);
    kept.pending_turn_base = Some(0);
    let turn = TurnRecorder::new(vec![]);
    let checkpoint = AgentLoopCheckpoint {
        phase: "round_end".to_string(),
        messages: vec![user("go")],
        rounds: 2,
        cost_micro: 5,
        active_generation_id: Some("g".to_string()),
        last_usage: None,
        context: None,
        stop_reason: None,
    };
    apply_checkpoint(&mut kept, &checkpoint, 10, 3, &turn);
    assert_eq!(kept.cost_micro, 15);
    assert_eq!(kept.rounds, 5);
    assert_eq!(kept.state, SessionState::Interrupted);
    assert_eq!(kept.active_generation_id.as_deref(), Some("g"));
    finish_session(&mut kept, "other", &result(AgentStopReason::Complete), &turn);
    assert_eq!(kept.state, SessionState::Completed);
    assert_eq!(kept.active_generation_id, None);
    assert_eq!(kept.model, "other");
    assert_eq!(kept.model_history, vec!["big", "other"]);
    assert_eq!(kept.pending_turn_base, None);
    assert!(sync_warning(SyncOutcome::Done).is_none());
    assert_eq!(sync_warning(SyncOutcome::Failed("x".to_string())).unwrap().message, "x");
    assert_eq!(sync_warning(SyncOutcome::TimedOut).unwrap().message, "request timed out");
}
