//! The loop of completions and tool calls, driven by scripted completions.
use ronin::interaction::{
    ask_user_definition, ask_user_result, Reply, UserAnswer, UserQuestion, UserQuestionOption,
};
use ronin::json::{parse_json, Json};
use ronin::loop_runner::{
    authorization_failed, permission_denied, AgentLoop, AgentLoopError, AgentLoopEvent,
    AgentLoopOptions, AgentLoopResult, AgentStopReason, CallPlan, ContextShare, LoopPhase,
    LoopSettings, LoopTool, RoundStep,
};
use ronin::tool::AgentToolKind;
use ronin::types::{
    AgentCompletionRequest, AgentMessage, AgentToolCall, AgentToolDefinition, FinishReason,
    GenerationStreamEvent, TokenUsage,
};

fn tool(name: &str, kind: AgentToolKind) -> LoopTool {
    LoopTool {
        definition: AgentToolDefinition {
            name: name.to_string(),
            description: String::new(),
            parameters: parse_json("{\"type\":\"object\"}").unwrap(),
        },
        kind,
    }
}

fn ask_user() -> LoopTool {
    LoopTool { definition: ask_user_definition(), kind: AgentToolKind::Interact }
}

fn settings(tools: Vec<LoopTool>, max_rounds: u32, max_credits_micro: Option<u64>) -> LoopSettings {
    LoopSettings {
        model: "m".to_string(),
        tools,
        max_rounds,
        max_credits_micro,
        temperature_bits: None,
        max_output_tokens: None,
        session_id: None,
        cache_control: false,
        web_search: false,
    }
}

fn options(settings: LoopSettings, messages: Vec<AgentMessage>) -> AgentLoopOptions {
    AgentLoopOptions { settings, messages, resume_generation_id: None }
}

fn user(text: &str) -> AgentMessage {
    AgentMessage::user(text.to_string())
}

fn call(id: &str, name: &str, args: &str) -> GenerationStreamEvent {
    GenerationStreamEvent::ToolCall {
        tool_call_id: id.to_string(),
        tool_name: name.to_string(),
        args: args.to_string(),
    }
}

fn done(cost: u64, finish_reason: FinishReason) -> GenerationStreamEvent {
    GenerationStreamEvent::Done {
        message_id: None,
        usage: None,
        cost_micro: Some(cost),
        finish_reason,
    }
}

fn confirm_args() -> String {
    "{\"questions\":[{\"id\":\"confirm\",\"header\":\"Confirm\",\"question\":\"Continue?\",\"options\":[{\"id\":\"yes\",\"label\":\"Yes\"},{\"id\":\"no\",\"label\":\"No\"}]}]}"
        .to_string()
}

fn confirm_questions() -> Vec<UserQuestion> {
    vec![UserQuestion {
        id: "confirm".to_string(),
        header: "Confirm".to_string(),
        question: "Continue?".to_string(),
        options: vec![
            UserQuestionOption {
                id: "yes".to_string(),
                label: "Yes".to_string(),
                description: String::new(),
            },
            UserQuestionOption {
                id: "no".to_string(),
                label: "No".to_string(),
                description: String::new(),
            },
        ],
        multi_select: false,
        allow_other: false,
    }]
}

/// Runs a tool: `echo` gives its value back, a question is answered with yes.
fn execute(name: &str, args: &Json) -> String {
    if name == "echo" {
        return args.get("value").unwrap().as_str().unwrap().to_string();
    }
    assert_eq!(name, "ask_user");
    let answers = vec![UserAnswer {
        question_id: "confirm".to_string(),
        selected_option_ids: vec!["yes".to_string()],
        other_text: None,
    }];
    ask_user_result(&confirm_questions(), Reply::Answered(answers)).result
}

struct Run {
    result: AgentLoopResult,
    requests: Vec<AgentCompletionRequest>,
    events: Vec<AgentLoopEvent>,
}

/// Drives a loop through scripted rounds; every tool may run.
fn drive(options: AgentLoopOptions, rounds: Vec<Vec<GenerationStreamEvent>>) -> Result<Run, AgentLoopError> {
    let mut rounds = rounds.into_iter();
    let mut requests = Vec::new();
    let mut events = Vec::new();
    let mut agent = AgentLoop::new(options);
    loop {
        match agent.phase {
            LoopPhase::Ready => {
                if let RoundStep::Generate { max_cost_micro, .. } = agent.start_round(false) {
                    requests.push(agent.request(max_cost_micro));
                }
            }
            LoopPhase::Streaming => {
                for event in rounds.next().unwrap() {
                    events.extend(agent.receive(event, None)?);
                }
                agent.end_stream(false);
            }
            LoopPhase::Tools => match agent.next_call() {
                Some(next) => {
                    let name = next.name.clone();
                    let content = match agent.plan() {
                        CallPlan::Answer(content) => content,
                        CallPlan::Authorize(args) | CallPlan::Run(args) => execute(&name, &args),
                    };
                    agent.answer(content);
                }
                None => agent.settle(),
            },
            LoopPhase::Finished => {
                return Ok(Run { result: agent.into_result(), requests, events });
            }
        }
    }
}

fn tool_content(message: &AgentMessage) -> &str {
    match message {
        AgentMessage::Tool { content, .. } => content,
        other => panic!("not a tool message: {other:?}"),
    }
}

#[test]
fn executes_tool_round_then_completes() {
    let cite = |title: &str| GenerationStreamEvent::Citation {
        url: "https://example.com/source".to_string(),
        title: title.to_string(),
        content: None,
    };
    let run = drive(
        options(settings(vec![tool("echo", AgentToolKind::Read)], 5, None), vec![user("go")]),
        vec![
            vec![call("1", "echo", "{\"value\":\"ok\"}"), done(5, FinishReason::ToolCalls)],
            vec![
                cite("Example"),
                cite("Duplicate"),
                GenerationStreamEvent::Delta { text: "finished".to_string() },
                done(7, FinishReason::Complete),
            ],
        ],
    )
    .unwrap();
    assert_eq!(run.result.final_text, "finished");
    assert_eq!(run.result.cost_micro, 12);
    assert_eq!(run.result.stop_reason, AgentStopReason::Complete);
    assert_eq!(run.result.sources.len(), 1);
    assert_eq!(run.result.sources[0].title, "Example");
    assert_eq!(tool_content(&run.result.messages[2]), "ok");
    assert_eq!(run.result.rounds, 2);
    assert_eq!(run.requests.len(), 2);
    assert_eq!(run.requests[1].messages.len(), 3);
    let cited = run.events.iter().filter(|e| matches!(e, AgentLoopEvent::Citation(_))).count();
    assert_eq!(cited, 1);
    assert!(run.events.contains(&AgentLoopEvent::RoundCost(7, 12)));
}

#[test]
fn interaction_call_defers_sibling_tools() {
    let run = drive(
        options(
            settings(vec![tool("echo", AgentToolKind::Read), ask_user()], 5, None),
            vec![user("go")],
        ),
        vec![
            vec![
                call("echo-call", "echo", "{\"value\":\"must not run\"}"),
                call("question-call", "ask_user", &confirm_args()),
                done(1, FinishReason::ToolCalls),
            ],
            vec![done(1, FinishReason::Complete)],
        ],
    )
    .unwrap();
    assert!(tool_content(&run.result.messages[2]).contains("deferred_for_user_input"));
    assert!(tool_content(&run.result.messages[3]).contains("selectedOptionIds"));
}

#[test]
fn resumed_pending_interaction_is_represented_and_completed() {
    let pending = AgentToolCall {
        id: "question-call".to_string(),
        name: "ask_user".to_string(),
        arguments: confirm_args(),
    };
    let run = drive(
        options(
            settings(vec![ask_user()], 2, None),
            vec![
                user("go"),
                AgentMessage::Assistant { content: String::new(), tool_calls: Some(vec![pending]) },
            ],
        ),
        vec![vec![done(1, FinishReason::Complete)]],
    )
    .unwrap();
    assert!(tool_content(&run.result.messages[2]).contains("selectedOptionIds"));
}

#[test]
fn budget_stops_between_rounds() {
    let run = drive(
        options(settings(vec![], 5, Some(10)), vec![user("go")]),
        vec![vec![call("1", "echo", "{}"), done(10, FinishReason::ToolCalls)]],
    )
    .unwrap();
    assert_eq!(run.requests[0].max_cost_micro, Some(10));
    assert_eq!(run.result.stop_reason, AgentStopReason::BudgetExhausted);
}

#[test]
fn an_unspent_budget_bounds_the_next_round() {
    let run = drive(
        options(settings(vec![], 5, Some(10)), vec![user("go")]),
        vec![
            vec![call("1", "echo", "{}"), done(4, FinishReason::ToolCalls)],
            vec![done(1, FinishReason::Complete)],
        ],
    )
    .unwrap();
    assert_eq!(run.requests[1].max_cost_micro, Some(6));
    assert_eq!(tool_content(&run.result.messages[2]), "Unknown tool: echo");
    assert_eq!(run.result.cost_micro, 5);
}

#[test]
fn a_loop_without_rounds_does_not_ask() {
    let run = drive(options(settings(vec![], 0, None), vec![user("go")]), vec![]).unwrap();
    assert_eq!(run.requests.len(), 0);
    assert_eq!(run.result.stop_reason, AgentStopReason::MaxRounds);
    assert_eq!(run.result.messages.len(), 1);
    assert_eq!(run.result.rounds, 0);
}

#[test]
fn rounds_end_at_their_limit() {
    let run = drive(
        options(settings(vec![tool("echo", AgentToolKind::Read)], 1, None), vec![user("go")]),
        vec![vec![call("1", "echo", "{\"value\":\"ok\"}"), done(5, FinishReason::ToolCalls)]],
    )
    .unwrap();
    assert_eq!(run.result.stop_reason, AgentStopReason::MaxRounds);
    assert_eq!(run.result.rounds, 1);
    assert_eq!(run.result.messages.len(), 3);
}

#[test]
fn errors_of_the_stream_end_the_loop() {
    let failed = drive(
        options(settings(vec![], 5, None), vec![user("go")]),
        vec![vec![GenerationStreamEvent::Error {
            code: "overloaded".to_string(),
            message: "try later".to_string(),
            retryable: true,
        }]],
    );
    match failed {
        Err(error) => {
            assert_eq!(error.code, "overloaded");
            assert_eq!(error.message, "try later");
            assert!(error.retryable);
        }
        Ok(_) => panic!("the loop went on"),
    }
}

#[test]
fn arguments_that_are_no_json_are_answered_with_an_error() {
    let run = drive(
        options(settings(vec![tool("echo", AgentToolKind::Read)], 5, None), vec![user("go")]),
        vec![
            vec![
                call("1", "echo", "not json"),
                done(1, FinishReason::ToolCalls),
            ],
            vec![done(1, FinishReason::Complete)],
        ],
    )
    .unwrap();
    assert_eq!(
        tool_content(&run.result.messages[2]),
        "Tool arguments were not valid JSON: not json"
    );
}

#[test]
fn changes_wait_for_permission() {
    let mut agent = AgentLoop::new(options(
        settings(vec![tool("write_file", AgentToolKind::Edit)], 5, None),
        vec![user("go")],
    ));
    agent.start_round(false);
    agent.receive(call("1", "write_file", "{\"path\":\"a\"}"), None).unwrap();
    agent.receive(done(1, FinishReason::ToolCalls), None).unwrap();
    agent.end_stream(false);
    assert!(matches!(agent.plan(), CallPlan::Authorize(_)));
    assert_eq!(
        permission_denied(),
        "Permission denied for this tool call. Ask before retrying, or take another approach."
    );
    assert_eq!(authorization_failed("no store"), "Tool authorization failed: no store");
    assert!(agent.authorized(Ok(true)));
    assert!(agent.next_call().is_some());
    assert!(!agent.authorized(Ok(false)));
    assert_eq!(tool_content(agent.messages.last().unwrap()), permission_denied());
    assert!(agent.next_call().is_none());
    agent.settle();
    assert_eq!(agent.phase, LoopPhase::Ready);
}

#[test]
fn a_call_without_a_description_is_answered_with_the_failure() {
    let mut agent = AgentLoop::new(options(
        settings(vec![tool("bash", AgentToolKind::Shell)], 5, None),
        vec![user("go")],
    ));
    agent.start_round(false);
    agent.receive(call("1", "bash", "{}"), None).unwrap();
    agent.receive(done(1, FinishReason::ToolCalls), None).unwrap();
    agent.end_stream(false);
    assert!(!agent.authorized(Err("command must be a non-empty string.".to_string())));
    assert_eq!(
        tool_content(agent.messages.last().unwrap()),
        "Tool authorization failed: command must be a non-empty string."
    );
}

#[test]
fn a_full_context_stops_the_loop() {
    let mut agent = AgentLoop::new(options(
        settings(vec![tool("echo", AgentToolKind::Read)], 5, None),
        vec![user("go")],
    ));
    agent.start_round(false);
    agent.receive(call("1", "echo", "{\"value\":\"ok\"}"), None).unwrap();
    let usage = TokenUsage {
        input_tokens: 95,
        output_tokens: 1,
        cached_tokens: None,
        cache_write_tokens: None,
    };
    let share = ContextShare { bits: 0.96f64.to_bits(), needs_compaction: true, at_limit: true };
    let events = agent
        .receive(
            GenerationStreamEvent::Done {
                message_id: None,
                usage: Some(usage),
                cost_micro: None,
                finish_reason: FinishReason::ToolCalls,
            },
            Some(share),
        )
        .unwrap();
    assert_eq!(events, vec![AgentLoopEvent::RoundUsage(usage, Some(share))]);
    agent.end_stream(false);
    agent.answer("ok".to_string());
    agent.settle();
    assert_eq!(agent.phase, LoopPhase::Finished);
    let result = agent.into_result();
    assert_eq!(result.stop_reason, AgentStopReason::ContextLimit);
    assert_eq!(result.last_usage, Some(usage));
}

#[test]
fn cancelled_loops_are_aborted() {
    let mut agent = AgentLoop::new(options(settings(vec![], 5, None), vec![user("go")]));
    assert!(matches!(agent.start_round(true), RoundStep::Finish));
    let result = agent.into_result();
    assert_eq!(result.stop_reason, AgentStopReason::Aborted);
    assert_eq!(result.rounds, 1);

    let mut agent = AgentLoop::new(options(settings(vec![], 5, None), vec![user("go")]));
    agent.start_round(false);
    agent.receive(GenerationStreamEvent::Delta { text: "half".to_string() }, None).unwrap();
    agent.end_stream(true);
    let result = agent.into_result();
    assert_eq!(result.stop_reason, AgentStopReason::Aborted);
    assert_eq!(result.final_text, "half");
    assert_eq!(
        result.messages[1],
        AgentMessage::Assistant { content: "half".to_string(), tool_calls: None }
    );
}

#[test]
fn a_generation_is_resumed_once() {
    let mut agent = AgentLoop::new(AgentLoopOptions {
        settings: settings(vec![], 5, None),
        messages: vec![user("go")],
        resume_generation_id: Some("g-1".to_string()),
    });
    match agent.start_round(false) {
        RoundStep::Generate { resume, max_cost_micro } => {
            assert_eq!(resume.as_deref(), Some("g-1"));
            assert_eq!(max_cost_micro, None);
        }
        RoundStep::Finish => panic!("nothing to resume"),
    }
    assert_eq!(agent.resume, None);
    let kept = agent.checkpoint("generation_start", Some("g-1".to_string()));
    assert_eq!(kept.phase, "generation_start");
    assert_eq!(kept.active_generation_id.as_deref(), Some("g-1"));
    assert_eq!(kept.messages, vec![user("go")]);
    assert_eq!(kept.stop_reason, None);
}

#[test]
fn requests_say_what_was_asked_for() {
    let mut wanted = settings(vec![tool("echo", AgentToolKind::Read)], 5, None);
    wanted.cache_control = true;
    wanted.web_search = true;
    wanted.session_id = Some("s".to_string());
    wanted.max_output_tokens = Some(7);
    let agent = AgentLoop::new(options(wanted, vec![user("go")]));
    let request = agent.request(Some(3));
    assert_eq!(request.model, "m");
    assert_eq!(request.tools[0].name, "echo");
    assert_eq!(request.web_search, Some(true));
    assert_eq!(request.cache_control.unwrap().kind, "ephemeral");
    assert_eq!(request.session_id.as_deref(), Some("s"));
    assert_eq!(request.max_output_tokens, Some(7));
    assert_eq!(request.max_cost_micro, Some(3));
}

#[test]
fn calls_that_were_answered_do_not_run_again() {
    let made = |id: &str| AgentToolCall {
        id: id.to_string(),
        name: "echo".to_string(),
        arguments: "{\"value\":\"late\"}".to_string(),
    };
    let run = drive(
        options(
            settings(vec![tool("echo", AgentToolKind::Read)], 2, None),
            vec![
                user("go"),
                AgentMessage::Assistant {
                    content: String::new(),
                    tool_calls: Some(vec![made("1"), made("2")]),
                },
                AgentMessage::Tool { tool_call_id: "1".to_string(), content: "early".to_string() },
            ],
        ),
        vec![vec![done(1, FinishReason::Complete)]],
    )
    .unwrap();
    assert_eq!(run.result.messages.len(), 5);
    assert_eq!(
        run.result.messages[3],
        AgentMessage::Tool { tool_call_id: "2".to_string(), content: "late".to_string() }
    );
}
