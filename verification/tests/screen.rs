//! What the interactive session shows and what its keys do.
use ronin::composer::{Composer, ComposerStep};
use ronin::config::{ConfigError, CreditLimit, PermissionMode, RoninConfig};
use ronin::display::{
    answer_rows, banner_rows, bold, diff_rows, help_rows, italic, mode_color, note_rows,
    prompt_rows, source_rows, stats_rows, summarize_turn, toned, tool_args_summary, tool_end_rows,
    tool_start_rows, Resumed, Row, Tone, TurnCounts,
};
use ronin::interaction::{validate_answers, UserQuestion, UserQuestionOption};
use ronin::keys::Key;
use ronin::layout::{short_id, truncate_line, wrap};
use ronin::loop_runner::{AgentLoopEvent, AgentStopReason};
use ronin::panels::{
    above_row, below_row, compose_row, list_hint, list_rows, model_row, panel_title,
    permission_height, permission_rows, question_height, question_rows, session_status, shimmer,
    spin, status_row, tail_rows,
};
use ronin::picker::{contains_all, model_matches, ModelPicker, PickerStep};
use ronin::questions::QuestionPrompt;
use ronin::storage::{LocalSession, Timestamp};
use ronin::tool::{FileChange, ToolPermissionDescription, ToolResultMetadata};
use ronin::tui::{
    bypasses, clear_session, credit_limit_note, decision_allows, diff_refused, forget_turn,
    init_args, parse_command, permission_key, recover_session, reload_credit_limit, session_mode,
    turn_action, undo_refused, undone_text, web_text, Command, PermissionDecision, TurnAction,
    TurnDisplay,
};
use ronin::types::{AgentMessage, ModelSummary, SourceCitation};

fn prompt(multi_select: bool, allow_other: bool) -> QuestionPrompt {
    QuestionPrompt::new(vec![UserQuestion {
        id: "choice".to_string(),
        header: "Choice".to_string(),
        question: "Choose an option".to_string(),
        options: vec![
            UserQuestionOption {
                id: "one".to_string(),
                label: "One".to_string(),
                description: String::new(),
            },
            UserQuestionOption {
                id: "two".to_string(),
                label: "Two".to_string(),
                description: String::new(),
            },
        ],
        multi_select,
        allow_other,
    }])
}

fn press(prompt: &mut QuestionPrompt, key: Key) -> bool {
    prompt.handle_question_key(key, false)
}

#[test]
fn single_and_multi_select_keys_produce_stable_option_ids() {
    let mut single = prompt(false, false);
    assert!(!press(&mut single, Key::Char('2')));
    assert!(press(&mut single, Key::Enter));
    assert_eq!(single.answers()[0].selected_option_ids, ["two"]);

    let mut multi = prompt(true, false);
    assert!(!press(&mut multi, Key::Char('1')));
    assert!(!press(&mut multi, Key::Down));
    assert!(!press(&mut multi, Key::Char(' ')));
    assert!(press(&mut multi, Key::Enter));
    assert_eq!(multi.answers()[0].selected_option_ids, ["one", "two"]);
    assert_eq!(validate_answers(&multi.questions, &multi.answers()), Ok(()));
}

#[test]
fn other_answer_uses_inline_editor() {
    let mut value = prompt(false, true);
    press(&mut value, Key::Down);
    press(&mut value, Key::Down);
    assert!(!press(&mut value, Key::Enter));
    assert!(value.editing_other);
    for character in "custom".chars() {
        press(&mut value, Key::Char(character));
    }
    assert!(press(&mut value, Key::Enter));
    assert_eq!(value.answers()[0].other_text.as_deref(), Some("custom"));
    assert_eq!(validate_answers(&value.questions, &value.answers()), Ok(()));
}

#[test]
fn panels_do_not_end_without_an_answer() {
    let mut value = prompt(true, true);
    assert_eq!(value.option_count(), 3);
    assert_eq!(value.question().id, "choice");
    assert!(!value.has_answer());
    assert!(!press(&mut value, Key::Enter));
    value.choose_question_option(0);
    assert!(value.has_answer());
    value.choose_question_option(0);
    assert!(!value.has_answer());
}

#[test]
fn credit_limit_reloads_from_config_between_turns() {
    let limit = |value: f64| {
        Some(CreditLimit {
            bits: value.to_bits(),
            micro: (value * 1_000_000.0) as u64,
            positive: !(value <= 0.0),
        })
    };
    let mut config = RoninConfig { max_credits: limit(1.0), ..RoninConfig::default() };
    let stored = || RoninConfig { max_credits: limit(100.0), ..RoninConfig::default() };

    assert!(reload_credit_limit(&mut config, Ok(stored())).unwrap());
    assert_eq!(config.max_credits, limit(100.0));
    assert!(!reload_credit_limit(&mut config, Ok(stored())).unwrap());
    assert_eq!(
        reload_credit_limit(&mut config, Err(ConfigError::Invalid("x".to_string()))),
        Err("Could not reload max_credits: Invalid Ronin config: x".to_string())
    );
    let nan = || RoninConfig { max_credits: limit(f64::NAN), ..RoninConfig::default() };
    assert!(reload_credit_limit(&mut config, Ok(nan())).unwrap());
    assert!(reload_credit_limit(&mut config, Ok(nan())).unwrap());
    assert_eq!(credit_limit_note(false, Some("1")), None);
    assert_eq!(
        credit_limit_note(true, Some("1.5")).as_deref(),
        Some("Reloaded invocation limit: 1.5 credits.")
    );
    assert_eq!(
        credit_limit_note(true, None).as_deref(),
        Some("Reloaded invocation limit: no configured cap.")
    );
}

fn session(id: &str) -> LocalSession {
    LocalSession::create(
        id.to_string(),
        "p".to_string(),
        "/work",
        "provider/model",
        vec![AgentMessage::system("instructions".to_string())],
        Timestamp { seconds: 0, nanos: 0 },
    )
}

#[test]
fn failed_turn_recovers_the_latest_checkpoint() {
    let kept = || {
        let mut checkpoint = session("kept");
        checkpoint.messages.push(AgentMessage::user("original task".to_string()));
        checkpoint
    };
    let recovered = recover_session(true, Some(kept()), Some(session("other"))).unwrap();
    assert_eq!(recovered.messages, kept().messages);
    let first = recover_session(true, None, Some(kept())).unwrap();
    assert_eq!(first.id, "kept");
    assert_eq!(recover_session(true, None, None), None);
    assert_eq!(recover_session(false, Some(kept()), Some(kept())), None);
}

#[test]
fn commands_are_read() {
    assert_eq!(parse_command("  "), Command::Nothing);
    assert_eq!(parse_command("/help"), Command::Help);
    assert_eq!(parse_command("/exit"), Command::Exit);
    assert_eq!(parse_command("/model a/b"), Command::SetModel("a/b".to_string()));
    assert_eq!(parse_command("/model"), Command::PickModel);
    assert_eq!(parse_command("/init --force"), Command::Init { force: true });
    assert_eq!(parse_command("/init"), Command::Init { force: false });
    assert_eq!(parse_command("/web on"), Command::WebOn);
    assert_eq!(parse_command("/nothing"), Command::Unknown("/nothing".to_string()));
    assert_eq!(parse_command("fix it"), Command::Prompt("fix it".to_string()));
}

#[test]
fn modes_follow_the_flag() {
    assert_eq!(session_mode(true, PermissionMode::Plan), PermissionMode::Yolo);
    assert_eq!(session_mode(false, PermissionMode::Plan), PermissionMode::Plan);
    assert!(bypasses(true, PermissionMode::Yolo));
    assert!(!bypasses(true, PermissionMode::Plan));
    assert!(!bypasses(false, PermissionMode::Plan));
}

#[test]
fn turns_can_be_forgotten() {
    let mut kept = session("a");
    kept.cost_micro = 3;
    kept.last_turn_changes =
        vec![FileChange { path: "a".to_string(), before: None, after: String::new() }];
    assert!(diff_refused(None).is_some());
    assert!(diff_refused(Some(&kept)).is_none());
    assert!(undo_refused(Some(&kept)).is_none());
    forget_turn(&mut kept);
    assert!(kept.last_turn_changes.is_empty());
    assert!(diff_refused(Some(&kept)).is_some());
    assert!(undo_refused(Some(&kept)).is_some());
    clear_session(&mut kept);
    assert!(undone_text(&vec!["a".to_string(), "b".to_string()]).contains("a, b"));
    assert_eq!(web_text(true), "Web search is on. Use /web on or /web off.");
}

#[test]
fn keys_answer_permission_panels() {
    assert_eq!(permission_key(Key::Char('y')), Some(PermissionDecision::Yes));
    assert_eq!(permission_key(Key::Char('n')), Some(PermissionDecision::No));
    assert_eq!(permission_key(Key::Char('a')), Some(PermissionDecision::Always));
    assert_eq!(permission_key(Key::Char('x')), None);
    assert!(decision_allows(PermissionDecision::Yes, false));
    assert!(!decision_allows(PermissionDecision::No, true));
    assert_eq!(turn_action(true, false, Key::Char('a'), false), TurnAction::Question);
    assert_eq!(turn_action(false, false, Key::Char('c'), true), TurnAction::Cancel);
    assert_eq!(turn_action(false, false, Key::Char('x'), false), TurnAction::Ignore);
    assert_eq!(
        turn_action(false, true, Key::Char('y'), false),
        TurnAction::Answer(PermissionDecision::Yes)
    );
    assert_eq!(init_args("c").get("content").unwrap().as_str(), Some("c"));
}

fn words(row: &Row) -> String {
    row.iter().map(|styled| styled.text.as_str()).collect()
}

fn lines(rows: &[Row]) -> Vec<String> {
    rows.iter().map(words).collect()
}

#[test]
fn answers_are_shown_by_whole_lines() {
    let mut display = TurnDisplay::new();
    let delta = |text: &str| AgentLoopEvent::Delta(text.to_string());
    assert!(display.handle_event(&delta("one"), 40).is_empty());
    assert_eq!(lines(&display.handle_event(&delta(" two\nthr"), 40)), vec!["", "● one two"]);
    assert_eq!(lines(&display.handle_event(&delta("ee\n"), 40)), vec!["  three"]);
    display.handle_event(&delta("rest"), 40);
    assert_eq!(lines(&display.flush_all(40)), vec!["  rest"]);
    assert_eq!(display.pending, "");
}

#[test]
fn answers_do_not_depend_on_the_pieces() {
    let text = "one two three four\n\nfive\nsix";
    let shown = |size: usize| {
        let mut display = TurnDisplay::new();
        let mut rows = vec![];
        let chars: Vec<char> = text.chars().collect();
        for piece in chars.chunks(size) {
            let delta = AgentLoopEvent::Delta(piece.iter().collect());
            rows.extend(display.handle_event(&delta, 12));
        }
        rows.extend(display.flush_all(12));
        lines(&rows)
    };
    assert_eq!(shown(1), shown(100));
    assert_eq!(shown(5), shown(100));
}

#[test]
fn typing_is_taken_back() {
    let mut composer = Composer::new(vec![], PermissionMode::Default);
    type_all(&mut composer, "ab");
    composer.handle_key(Key::Left, false);
    composer.handle_key(Key::Char('x'), false);
    assert_eq!(shown(&composer), "axb");
    composer.handle_key(Key::Backspace, false);
    assert_eq!(shown(&composer), "ab");
    assert_eq!(composer.cursor, 1);
}

#[test]
fn lists_settle_once() {
    let models = (0..20).map(|i| model(&format!("m{i}"), "M", true)).collect();
    let mut picker = ModelPicker::new(models, "m15").unwrap();
    let all = picker.filtered();
    picker.settle(all.len(), 5);
    assert!(picker.offset <= picker.selected && picker.selected < picker.offset + 5);
    let (selected, offset) = (picker.selected, picker.offset);
    picker.settle(all.len(), 5);
    assert_eq!((picker.selected, picker.offset), (selected, offset));
    picker.handle_key(&all, Key::PageUp, false, 5);
    picker.handle_key(&all, Key::PageUp, false, 5);
    picker.settle(all.len(), 5);
    assert_eq!((picker.selected, picker.offset), (5, 5));
}

#[test]
fn wrapped_lines_keep_the_words() {
    let text = "the quick brown fox jumps over the lazy dog and runs away";
    for width in 8..40 {
        let rows = wrap(text, width);
        assert!(rows.iter().all(|row| row.chars().count() <= width));
        assert_eq!(rows.join(" "), text);
    }
}

#[test]
fn turns_count_rounds_and_credits() {
    let mut display = TurnDisplay::new();
    display.handle_event(&AgentLoopEvent::RoundStart(0), 40);
    display.handle_event(&AgentLoopEvent::RoundCost(5, 12), 40);
    assert_eq!(display.round, 1);
    assert_eq!(display.total_micro, 12);
    let started = display.handle_event(
        &AgentLoopEvent::ToolStart(
            "bash".to_string(),
            "{\"command\":\"ls\"}".to_string(),
            "1".to_string(),
        ),
        40,
    );
    assert!(lines(&started).join("").contains("ls"));
    assert_eq!(display.running_tool.as_deref(), Some("bash"));
    let ended = display.handle_event(
        &AgentLoopEvent::ToolEnd(
            "bash".to_string(),
            "out".to_string(),
            false,
            "1".to_string(),
            0,
            ToolResultMetadata::default(),
        ),
        40,
    );
    assert_eq!(lines(&ended), vec!["  ⎿  out"]);
    assert_eq!(display.running_tool, None);
    display.handle_event(&AgentLoopEvent::Reasoning("é".repeat(1500)), 40);
    assert!(display.reasoning.len() <= 2001);
    display.handle_event(&AgentLoopEvent::GenerationStart(0, "g".to_string()), 40);
    assert_eq!(display.reasoning, "");
}

#[test]
fn lines_are_wrapped() {
    assert_eq!(wrap("one two three", 8), vec!["one two", "three"]);
    assert_eq!(wrap("", 8), vec![""]);
    assert_eq!(wrap("abcdefghijkl", 8), vec!["abcdefgh", "ijkl"]);
    assert_eq!(wrap("a\tb", 8), vec!["a  b"]);
    assert_eq!(wrap("ab cdefghijklmnop", 8), vec!["ab cdefg", "hijklmno", "p"]);
    assert_eq!(wrap("one two", 1), vec!["one two"]);
    assert_eq!(truncate_line("short", 5), "short");
    assert_eq!(truncate_line("longer", 5), "long…");
    assert_eq!(truncate_line("ab", 0), "…");
    assert_eq!(short_id("0123456789"), "01234567");
}

fn type_all(composer: &mut Composer, text: &str) {
    for c in text.chars() {
        assert!(matches!(composer.handle_key(Key::Char(c), false), ComposerStep::Continue));
    }
}

fn shown(composer: &Composer) -> String {
    composer.chars.iter().collect()
}

#[test]
fn the_composer_edits_a_line() {
    let mut composer = Composer::new(vec![], PermissionMode::Default);
    type_all(&mut composer, "hello world");
    composer.handle_key(Key::Char('w'), true);
    assert_eq!(shown(&composer), "hello ");
    composer.handle_key(Key::Backspace, false);
    composer.handle_key(Key::Left, false);
    composer.handle_key(Key::Delete, false);
    assert_eq!(shown(&composer), "hell");
    composer.handle_key(Key::Home, false);
    composer.handle_key(Key::Right, false);
    composer.handle_key(Key::Char('k'), true);
    assert_eq!(shown(&composer), "h");
    composer.paste("a\nb");
    assert_eq!(shown(&composer), "ha b");
    composer.handle_key(Key::Char('u'), true);
    assert_eq!(shown(&composer), "");
    assert!(matches!(composer.handle_key(Key::Enter, false), ComposerStep::Continue));
    type_all(&mut composer, "go");
    match composer.handle_key(Key::Enter, false) {
        ComposerStep::Submit(text) => assert_eq!(text, "go"),
        other => panic!("{other:?}"),
    }
    assert_eq!(composer.history, vec!["go"]);
}

#[test]
fn the_composer_walks_its_history() {
    let past = vec!["first".to_string(), "second".to_string()];
    let mut composer = Composer::new(past, PermissionMode::Default);
    type_all(&mut composer, "draft");
    composer.handle_key(Key::Up, false);
    assert_eq!(shown(&composer), "second");
    composer.handle_key(Key::Up, false);
    composer.handle_key(Key::Up, false);
    assert_eq!(shown(&composer), "first");
    composer.handle_key(Key::Down, false);
    composer.handle_key(Key::Down, false);
    assert_eq!(shown(&composer), "draft");
    assert_eq!(composer.cursor, 5);
}

#[test]
fn the_composer_changes_modes_and_quits() {
    let mut composer = Composer::new(vec![], PermissionMode::Default);
    match composer.handle_key(Key::BackTab, false) {
        ComposerStep::Flash(text) => assert!(text.starts_with("Accept edits mode — ")),
        other => panic!("{other:?}"),
    }
    assert_eq!(composer.mode, PermissionMode::AcceptEdits);
    type_all(&mut composer, "x");
    assert!(matches!(composer.handle_key(Key::Char('d'), true), ComposerStep::Continue));
    match composer.handle_key(Key::Char('c'), true) {
        ComposerStep::Flash(text) => assert_eq!(text, "input cleared — ctrl+c again to quit"),
        other => panic!("{other:?}"),
    }
    assert!(matches!(composer.handle_key(Key::Char('c'), true), ComposerStep::Quit));
    assert!(matches!(composer.handle_key(Key::Char('d'), true), ComposerStep::Quit));
}

fn model(id: &str, name: &str, tools: bool) -> ModelSummary {
    ModelSummary {
        model_id: id.to_string(),
        display_name: name.to_string(),
        category: "chat".to_string(),
        supports_tools: tools,
        context_window: 128_000,
        credit_price_micro: Some(2),
    }
}

#[test]
fn models_are_picked() {
    let models = vec![
        model("a/one", "One", true),
        model("b/plain", "Plain", false),
        model("c/TWO", "Straße", true),
    ];
    assert!(model_matches(&models[2], "two STRAßE"));
    assert!(model_matches(&models[2], "CHAT"));
    assert!(!model_matches(&models[2], "two one"));
    assert!(contains_all("abc", &vec!["a".to_string(), "c".to_string()]));
    let mut picker = ModelPicker::new(models, "c/TWO").unwrap();
    assert_eq!(picker.selected, 1);
    let all = picker.filtered();
    assert_eq!(all.len(), 2);
    picker.settle(all.len(), 5);
    assert!(matches!(picker.handle_key(&all, Key::Down, false, 5), PickerStep::Continue));
    assert_eq!(picker.selected, 1);
    match picker.handle_key(&all, Key::Enter, false, 5) {
        PickerStep::Choose(id) => assert_eq!(id, "c/TWO"),
        other => panic!("{other:?}"),
    }
    picker.handle_key(&all, Key::Char('o'), false, 5);
    picker.handle_key(&all, Key::Char('n'), false, 5);
    let some = picker.filtered();
    assert_eq!(some, vec![0]);
    assert!(matches!(picker.handle_key(&some, Key::Escape, false, 5), PickerStep::Cancel));
    picker.handle_key(&some, Key::Char('u'), true, 5);
    assert!(picker.query.is_empty());
    assert!(ModelPicker::new(vec![model("b", "B", false)], "b").is_err());
}

#[test]
fn notes_and_prompts_are_shown() {
    assert_eq!(lines(&note_rows("hi", Tone::Dim, 40)), vec!["", "  ◆ hi"]);
    assert!(lines(&prompt_rows("do it", 40)).join("").contains("do it"));
    assert!(lines(&help_rows()).join("\n").contains("/help"));
    assert_eq!(toned("a", Tone::Red).tone, Tone::Red);
    assert!(bold("a", Tone::Red).bold);
    assert!(italic("a", Tone::Red).italic);
    let resumed =
        Resumed { short_id: "01234567".to_string(), messages: 3, credits: "0.1".to_string() };
    let banner = banner_rows("0.4.0", "m", "/work", Some(resumed), PermissionMode::Plan, false);
    let text = lines(&banner).join("\n");
    assert!(text.contains("0.4.0") && text.contains("/work") && text.contains("01234567"));
    assert_ne!(mode_color(PermissionMode::Plan), mode_color(PermissionMode::Default));
}

#[test]
fn differences_have_colours() {
    let rows = diff_rows("--- a\n+++ b\n@@ -1 +1 @@\n-x\n+y\n z");
    let tones: Vec<Tone> = rows[1..].iter().map(|row| row[0].tone).collect();
    assert_eq!(
        tones,
        vec![tones[0], tones[0], Tone::Purple, Tone::Red, Tone::Green, tones[5]]
    );
    assert_eq!(lines(&rows)[4], "-x");
}

#[test]
fn tools_are_shown() {
    assert_eq!(tool_args_summary("{\"path\":\"a\",\"command\":\"l\\ns\"}"), "l s");
    assert_eq!(tool_args_summary("plain"), "plain");
    assert_eq!(tool_args_summary(&"x".repeat(100)).chars().count(), 90);
    assert!(lines(&tool_start_rows("bash", "ls")).join("").contains("bash"));
    assert_eq!(
        lines(&tool_end_rows("a\n\nb\nc\nd\ne", false, 40)),
        vec!["  ⎿  a", "     b", "     c", "     … +2 lines"]
    );
    assert_eq!(lines(&tool_end_rows("", true, 40)), vec!["  ⎿  failed"]);
    assert_eq!(lines(&tool_end_rows("", false, 40)), vec!["  ⎿  done"]);
    assert_eq!(tool_end_rows("a", true, 40)[0][0].tone, Tone::Red);
    let source = SourceCitation {
        url: "https://x".to_string(),
        title: "X".to_string(),
        content: None,
    };
    assert!(lines(&source_rows(&source, 80)).join("").contains("https://x"));
}

#[test]
fn turns_are_summed_up() {
    let counts = TurnCounts {
        round: 1,
        credits: "0.0100".to_string(),
        seconds: 7,
        context: " · 5% context".to_string(),
    };
    assert_eq!(
        lines(&stats_rows(None, &counts)),
        vec!["", "  ✔ complete · 1 round · 0.0100 credits · 7s · 5% context"]
    );
    assert_eq!(
        lines(&stats_rows(Some(AgentStopReason::MaxRounds), &counts))[1],
        "  ◼ max rounds reached · 1 round · 0.0100 credits · 7s · 5% context"
    );
    assert_eq!(summarize_turn(&vec![], 0), None);
    assert_eq!(
        summarize_turn(&vec!["a".to_string(), "b".to_string()], 1).as_deref(),
        Some("2 native file edits: a, b · 1 command executed")
    );
    assert_eq!(lines(&answer_rows("  ", false, 40)), Vec::<String>::new());
    assert_eq!(lines(&answer_rows("x", true, 40)), vec!["  x"]);
}

#[test]
fn panels_fit_their_height() {
    let value = prompt(false, true);
    assert!(panel_title(&value).contains("Choice"));
    let rows = question_rows(&value, 60, 20);
    assert!(rows.len() <= 20);
    let text = lines(&rows).join("\n");
    assert!(text.contains("One") && text.contains("Two"));
    assert!(question_height(24) <= 24);
    assert!(permission_height(24) <= 24);
    let described = ToolPermissionDescription {
        summary: "Run ls".to_string(),
        preview: Some("ls".to_string()),
        persistence_key: "ls".to_string(),
        warning: Some("careful".to_string()),
    };
    let rows = permission_rows(&described, 60, 10);
    assert!(rows.len() <= 10);
    assert!(lines(&rows).join("\n").contains("Run ls"));
}

#[test]
fn the_cursor_stays_in_view() {
    let chars: Vec<char> = "0123456789".chars().collect();
    let (row, column) = compose_row(&chars, 10, 6);
    assert!(column <= 6);
    assert!(words(&row).contains('9'));
    let (row, column) = compose_row(&chars, 0, 6);
    assert!(column <= 6);
    assert!(words(&row).contains('0'));
}

#[test]
fn status_lines_are_shown() {
    assert!(words(&above_row("status", PermissionMode::Plan)).contains("status"));
    assert!(words(&below_row(Some("flash"))).contains("flash"));
    assert_eq!(session_status("m", None).contains('m'), true);
    assert!(!words(&list_hint()).is_empty());
    assert_ne!(spin(0), spin(1));
    assert_eq!(words(&shimmer("busy", 3)), "busy");
    let status = status_row(0, false, &Some("bash".to_string()), 4, 2, "0.1", "");
    assert!(words(&status).contains("bash"));
    assert!(words(&status).contains("4s"));
    let rows = tail_rows("one\ntwo\nthree", "", 40, 2);
    assert_eq!(rows.len(), 2);
    assert!(lines(&rows)[1].contains("three"));
}

#[test]
fn models_are_shown_in_rows() {
    let models = vec![model("a/one", "One", true), model("c/two", "Two", true)];
    let row = model_row(&models[0], true, "a/one", 80);
    assert!(words(&row).contains("a/one"));
    let rows = list_rows(&models, &vec![0, 1], &vec![], 1, 0, "a/one", 80, 10);
    let text = lines(&rows).join("\n");
    assert!(text.contains("a/one") && text.contains("c/two"));
}
