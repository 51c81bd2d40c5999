//! What the command line asks for and prints.
use ronin::cli::{
    accepts_update, check_empty_trash, check_reset, check_resume, choose_model, confirm_resume,
    emptied_text, forked_text, health_report, hints_for, list_models, no_session_text,
    no_sessions_text, outcome_json, pick_index, print_outcome, prompt_with_stdin, renamed_text,
    require_model, reset_text, revoked_text, scan_report, searches_web, select_grants,
    session_changed_text, session_choice, session_json, session_summary, show_choices, show_grants,
    show_model, show_session, show_title, show_trash, stop_reason_name, update_text, Health,
    ResumeCheck, SessionChange, SessionChoice,
};
use ronin::json::{parse_json, Json};
use ronin::loop_runner::{AgentLoopResult, AgentStopReason};
use ronin::permissions::StoredPermissionGrant;
use ronin::run::{run_outcome, RunOutcome, RunWarning, TurnRecorder};
use ronin::storage::{Credentials, LocalSession, SessionScanEntry, Timestamp};
use ronin::types::{ModelSummary, SourceCitation, TokenUsage};
use ronin::update::{UpdateOutcome, Version};

fn session(id: &str) -> LocalSession {
    LocalSession::create(
        id.to_string(),
        "p".to_string(),
        "/work",
        "m",
        vec![],
        Timestamp { seconds: 1_700_000_000, nanos: 0 },
    )
}

fn outcome(sources: Vec<SourceCitation>) -> RunOutcome {
    let result = AgentLoopResult {
        messages: vec![],
        final_text: "done".to_string(),
        rounds: 2,
        cost_micro: 5,
        last_usage: Some(TokenUsage {
            input_tokens: 3,
            output_tokens: 4,
            cached_tokens: None,
            cache_write_tokens: Some(1),
        }),
        context: None,
        stop_reason: AgentStopReason::Complete,
        sources,
    };
    let warning = RunWarning::new("sync", "not synced".to_string());
    let mut turn = TurnRecorder::new(vec![]);
    turn.affected = vec!["a".to_string(), "b".to_string()];
    turn.commands = vec!["ls".to_string()];
    run_outcome(session("s"), result, 0, vec![warning], turn)
}

#[test]
fn startup_update_prompt_requires_explicit_confirmation() {
    assert!(accepts_update("y"));
    assert!(accepts_update(" YES \n"));
    assert!(!accepts_update(""));
    assert!(!accepts_update("n"));
    assert!(!accepts_update("later"));
}

#[test]
fn flags_choose_a_session() {
    assert_eq!(session_choice(false, None), Ok(SessionChoice::New));
    assert_eq!(session_choice(true, None), Ok(SessionChoice::Latest));
    assert_eq!(session_choice(false, Some("")), Ok(SessionChoice::Pick));
    assert_eq!(session_choice(false, Some("a")), Ok(SessionChoice::Resume("a".to_string())));
    assert_eq!(
        session_choice(true, Some("a")),
        Err("Use either --continue or --resume, not both.".to_string())
    );
    assert_eq!(no_session_text(), "No local session exists for this workspace.");
}

#[test]
fn sessions_of_other_workspaces_are_asked_about() {
    let session = session("s");
    assert_eq!(check_resume(&session, "/work", false), ResumeCheck::Go);
    assert_eq!(
        check_resume(&session, "/else", true),
        ResumeCheck::Ask("Session s belongs to /work. Resume in /else? [y/N] ".to_string())
    );
    assert_eq!(
        check_resume(&session, "/else", false),
        ResumeCheck::Refuse(
            "Session s belongs to /work; resume it from that workspace or use an interactive terminal."
                .to_string()
        )
    );
    assert_eq!(confirm_resume("Yes\n"), Ok(()));
    assert_eq!(confirm_resume("\n"), Err("Session resume cancelled.".to_string()));
}

#[test]
fn picked_numbers_are_in_range() {
    assert_eq!(pick_index(" 2\n", 3), Ok(1));
    assert_eq!(pick_index("+3", 3), Ok(2));
    assert_eq!(pick_index("003", 3), Ok(2));
    for line in ["0", "4", "", "+", "-1", "1a", "++1", "99999999999999999999999"] {
        assert_eq!(
            pick_index(line, 3),
            Err("Session selection cancelled or invalid.".to_string()),
            "{line}"
        );
        let parsed = line.trim().parse::<usize>().ok().filter(|n| (1..=3).contains(n));
        assert_eq!(parsed, None);
    }
    assert_eq!(pick_index("18446744073709551615", usize::MAX), Ok(usize::MAX - 1));
    assert!(pick_index("18446744073709551616", usize::MAX).is_err());
}

#[test]
fn models_are_chosen_in_order() {
    let configured = Some("c".to_string());
    let kept = session("s");
    assert_eq!(choose_model(Some("g".to_string()), Some(&kept), &configured).as_deref(), Some("g"));
    assert_eq!(choose_model(None, Some(&kept), &configured).as_deref(), Some("m"));
    assert_eq!(choose_model(None, None, &configured).as_deref(), Some("c"));
    assert_eq!(choose_model(None, None, &None), None);
    assert_eq!(require_model(Some("c".to_string())), Ok("c".to_string()));
    assert_eq!(
        require_model(None),
        Err("No model selected. Pass --model or set default_model in ronin.toml.".to_string())
    );
}

#[test]
fn piped_text_follows_the_prompt() {
    assert_eq!(prompt_with_stdin("go", None), "go");
    assert_eq!(prompt_with_stdin("go", Some(" \n")), "go");
    assert_eq!(prompt_with_stdin("go", Some(" x\ny\n")), "go\n\n<stdin>\nx\ny\n</stdin>");
    assert!(searches_web(true, false));
    assert!(!searches_web(true, true));
    assert!(!searches_web(false, false));
}

#[test]
fn errors_come_with_hints() {
    assert_eq!(hints_for("insufficient_credits: no"), vec!["Top up at the Ronin web app."]);
    assert_eq!(
        hints_for("cli_upgrade_required"),
        vec!["Upgrade the Ronin CLI before running another agent task."]
    );
    assert!(hints_for("other").is_empty());
}

#[test]
fn reasons_have_names() {
    assert_eq!(stop_reason_name(&AgentStopReason::Complete), "complete");
    assert_eq!(stop_reason_name(&AgentStopReason::MaxRounds), "max_rounds");
    assert_eq!(stop_reason_name(&AgentStopReason::BudgetExhausted), "budget_exhausted");
    assert_eq!(stop_reason_name(&AgentStopReason::ContextLimit), "context_limit");
    assert_eq!(stop_reason_name(&AgentStopReason::Aborted), "aborted");
    assert_eq!(stop_reason_name(&AgentStopReason::Stopped), "stopped");
}

#[test]
fn updates_are_told() {
    let updated = UpdateOutcome::Updated { from: Version::new(1, 0, 0), to: Version::new(1, 1, 0) };
    assert_eq!(update_text(&updated), "Updated Ronin from v1.0.0 to v1.1.0.");
    let current = UpdateOutcome::Current { version: Version::new(1, 0, 0) };
    assert_eq!(update_text(&current), "Ronin v1.0.0 is already up to date.");
}

#[test]
fn models_are_listed() {
    let model = |id: &str, tools: bool, price: Option<u64>| ModelSummary {
        model_id: id.to_string(),
        display_name: "Name".to_string(),
        category: String::new(),
        supports_tools: tools,
        context_window: 1,
        credit_price_micro: price,
    };
    let with = model("a", true, Some(5));
    let (id, name) = ("a", "Name");
    assert_eq!(show_model(&with), format!("{id:<42} {name:<24} tools · 5 µc/token"));
    let without = model("b", false, None);
    let id = "b";
    assert_eq!(show_model(&without), format!("{id:<42} {name:<24} no-tools"));
    let models = vec![with, without];
    assert_eq!(list_models(&models, false).len(), 2);
    assert_eq!(list_models(&models, true), vec![show_model(&models[0])]);
}

#[test]
fn sessions_are_listed() {
    let mut kept = session("s");
    assert_eq!(show_title(&kept), "Untitled session");
    kept.title = Some("T".to_string());
    kept.rounds = 2;
    assert_eq!(
        show_session(&kept, "0.0100"),
        vec![
            "s  active      T",
            "  2023-11-14 22:13:20 UTC · m · 2 rounds · 0 compactions · 0.0100 credits",
            "  /work",
        ]
    );
    assert_eq!(no_sessions_text(true), "No local sessions.");
    assert_eq!(no_sessions_text(false), "No local sessions for this workspace.");
    assert_eq!(
        show_choices(&vec![kept], true).unwrap(),
        vec!["Select a session to resume:", "  1) T · m · 2023-11-14 22:13:20 UTC", "     s"]
    );
    assert_eq!(show_choices(&vec![], true), Err(no_session_text()));
    assert_eq!(
        show_choices(&vec![], false),
        Err("--resume without a session ID requires an interactive terminal.".to_string())
    );
}

#[test]
fn the_trash_is_listed() {
    assert_eq!(show_trash(&vec![], true), vec!["Session trash is empty."]);
    assert_eq!(show_trash(&vec![], false), vec!["Session trash is empty for this workspace."]);
    assert_eq!(
        show_trash(&vec![session("s")], false),
        vec!["s  Untitled session  2023-11-14 22:13:20 UTC", "  /work"]
    );
    assert_eq!(check_empty_trash(true), Ok(()));
    assert_eq!(
        check_empty_trash(false),
        Err("Emptying session trash is permanent. Pass --yes to continue.".to_string())
    );
    assert_eq!(emptied_text(2), "Permanently removed 2 session(s) from trash.");
}

#[test]
fn changes_of_sessions_are_told() {
    assert_eq!(session_changed_text(SessionChange::Archive, "s"), "Archived session s.");
    assert_eq!(session_changed_text(SessionChange::Unarchive, "s"), "Unarchived session s.");
    assert_eq!(
        session_changed_text(SessionChange::Delete, "s"),
        "Moved session s to trash. It can be restored."
    );
    assert_eq!(session_changed_text(SessionChange::Restore, "s"), "Restored session s.");
    assert_eq!(renamed_text(&session("s")), "Renamed session s to Untitled session.");
    assert_eq!(forked_text("s", "f"), "Forked session s as f.");
}

#[test]
fn scans_are_reported() {
    let entries = vec![
        SessionScanEntry::Session(Box::new(session("s"))),
        SessionScanEntry::Unsupported { id: "u".to_string(), version: 9 },
        SessionScanEntry::Quarantined {
            id: "q".to_string(),
            reason: "bad".to_string(),
            path: "/q".to_string(),
        },
    ];
    let (rows, verdict) = scan_report(&entries);
    assert_eq!(
        rows,
        vec![
            "Unsupported: u uses schema version 9.",
            "Quarantined: q: bad",
            "  /q",
            "Session store: 1 healthy, 2 problem(s).",
        ]
    );
    assert_eq!(verdict, Err("Session doctor found one or more problems.".to_string()));
    let (rows, verdict) = scan_report(&vec![]);
    assert_eq!(rows, vec!["Session store: 0 healthy, 0 problem(s)."]);
    assert_eq!(verdict, Ok(()));
}

#[test]
fn grants_are_listed() {
    let grant = |id: &str, path: &str| StoredPermissionGrant {
        id: id.to_string(),
        workspace_path: path.to_string(),
        kind: "tool".to_string(),
        value: "bash".to_string(),
    };
    let all = vec![grant("1", "/work"), grant("2", "/else")];
    let here = select_grants(&all, false, "/work");
    assert_eq!(here.len(), 1);
    assert_eq!(show_grants(&here, false), vec!["1  tool    bash", "  /work"]);
    assert_eq!(select_grants(&all, true, "/work").len(), 2);
    assert_eq!(show_grants(&vec![], true), vec!["No stored permission grants."]);
    assert_eq!(
        show_grants(&vec![], false),
        vec!["No stored permission grants for this workspace."]
    );
    assert_eq!(revoked_text("1", true), Ok("Revoked permission grant 1.".to_string()));
    assert_eq!(revoked_text("1", false), Err("Permission grant 1 was not found.".to_string()));
    assert_eq!(check_reset(true), Ok(()));
    assert!(check_reset(false).is_err());
    assert_eq!(reset_text(3), "Removed 3 permission grant(s) for this workspace.");
}

#[test]
fn health_is_reported() {
    let mut credentials = Credentials::default();
    let sick = Health {
        api: false,
        balance: Err("offline".to_string()),
        models: Err("offline".to_string()),
    };
    let (rows, verdict) = health_report("0.4.0", &credentials, &sick);
    assert_eq!(
        rows,
        vec![
            "Rust: ok (0.4.0)",
            "Credentials: missing",
            "API: unreachable",
            "Balance: offline",
            "Models: offline",
            "Search: native Rust engine",
        ]
    );
    assert_eq!(verdict, Err("Doctor found one or more problems.".to_string()));
    credentials.dev_user_id = Some("me".to_string());
    let well = Health { api: true, balance: Ok("5 credits".to_string()), models: Ok(3) };
    let (rows, verdict) = health_report("0.4.0", &credentials, &well);
    assert_eq!(rows[1], "Credentials: ok");
    assert_eq!(rows[4], "Models: 3 available");
    assert_eq!(verdict, Ok(()));
}

/// A value with the entries of its objects in order.
fn in_order(value: Json) -> Json {
    match value {
        Json::Array(items) => Json::Array(items.into_iter().map(in_order).collect()),
        Json::Object(entries) => {
            let mut entries: Vec<(String, Json)> =
                entries.into_iter().map(|(key, value)| (key, in_order(value))).collect();
            entries.sort_by(|a, b| a.0.cmp(&b.0));
            Json::Object(entries)
        }
        other => other,
    }
}

#[test]
fn sessions_are_written_as_json() {
    let kept = session("s");
    let expected = parse_json(
        "{\"id\":\"s\",\"workspace\":\"/work\",\"model\":\"m\",\"state\":\"active\",\"updatedAt\":\"2023-11-14T22:13:20Z\",\"rounds\":0,\"compactionCount\":0,\"costCredits\":0.5}",
    )
    .unwrap();
    assert_eq!(in_order(session_summary(&kept, "0.5")), in_order(expected.clone()));
    let full = session_json(&kept, "0.5");
    assert_eq!(full.get("title"), Some(&Json::Null));
    assert_eq!(full.get("id"), expected.get("id"));
}

#[test]
fn outcomes_are_written_as_json() {
    let run = outcome(vec![SourceCitation {
        url: "u".to_string(),
        title: "t".to_string(),
        content: None,
    }]);
    let written = in_order(outcome_json(&run, "0.25", Some("0.5")));
    let expected = parse_json(
        "{\"result\":\"done\",\"stopReason\":\"complete\",\"rounds\":2,\"costCredits\":0.25,\"usage\":{\"inputTokens\":3,\"outputTokens\":4,\"cachedTokens\":null,\"cacheWriteTokens\":1},\"contextPercent\":0.5,\"sources\":[{\"url\":\"u\",\"title\":\"t\"}],\"changedFiles\":[\"a\",\"b\"],\"commands\":[\"ls\"]}",
    )
    .unwrap();
    assert_eq!(written, in_order(expected));
    let bare = outcome_json(&run, "0.0", None);
    assert_eq!(bare.get("contextPercent"), Some(&Json::Null));
}

#[test]
fn outcomes_are_printed() {
    let source = |title: &str| SourceCitation {
        url: "https://x".to_string(),
        title: title.to_string(),
        content: None,
    };
    let printed = print_outcome(&outcome(vec![source("X"), source("")]), "0.0000", " · 1.0% context");
    assert_eq!(printed.output, vec!["", "Sources:", "- X — https://x", "- https://x", ""]);
    assert_eq!(
        printed.side,
        vec![
            "Warning: not synced",
            "Native file changes: a, b",
            "Executed 1 command.",
            "",
            "2 round(s) · 0.0000 credits · 1.0% context · complete",
        ]
    );
    assert_eq!(print_outcome(&outcome(vec![]), "0.0000", "").output, vec![""]);
}
