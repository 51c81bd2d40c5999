//! Questions to the user and their answers.
use ronin::interaction::{
    answers_text, ask_user_definition, ask_user_result, bounded, check_questions, invalid_questions,
    parse_questions, validate_answers, Reply, UnavailableQuestioner, UserAnswer, UserQuestion,
    UserQuestionOption,
};
use ronin::json::{parse_json, Json};
use ronin::tool::ToolResult;

fn text(value: &Json, key: &str) -> String {
    value.get(key).and_then(Json::as_str).unwrap_or("").to_string()
}

fn flag(value: &Json, key: &str) -> bool {
    value.get(key).and_then(Json::as_bool).unwrap_or(false)
}

/// Reads questions as they stand in the arguments.
fn decode(args: &Json) -> Result<Vec<UserQuestion>, String> {
    let list = args.get("questions").and_then(Json::as_array).ok_or("no questions".to_string())?;
    Ok(list
        .iter()
        .map(|q| UserQuestion {
            id: text(q, "id"),
            header: text(q, "header"),
            question: text(q, "question"),
            options: q
                .get("options")
                .and_then(Json::as_array)
                .unwrap()
                .iter()
                .map(|o| UserQuestionOption {
                    id: text(o, "id"),
                    label: text(o, "label"),
                    description: text(o, "description"),
                })
                .collect(),
            multi_select: flag(q, "multiSelect"),
            allow_other: flag(q, "allowOther"),
        })
        .collect())
}

fn rich_args() -> Json {
    parse_json(
        "{\"questions\":[{\"id\":\"scope\",\"header\":\"Scope\",\"question\":\"Which surfaces?\",\"multiSelect\":true,\"allowOther\":false,\"options\":[{\"id\":\"api\",\"label\":\"API\",\"description\":\"Server support\"},{\"id\":\"cli\",\"label\":\"CLI\",\"description\":\"Terminal support\"}]},{\"id\":\"notes\",\"header\":\"Notes\",\"question\":\"Anything else?\",\"allowOther\":true,\"options\":[{\"id\":\"none\",\"label\":\"Nothing\"},{\"id\":\"tests\",\"label\":\"More tests\"}]}]}",
    )
    .unwrap()
}

/// Runs the tool with a reply to the questions.
fn execute(args: &Json, reply: fn(&Vec<UserQuestion>) -> Reply) -> ToolResult {
    match parse_questions(args, decode(args)) {
        Ok(questions) => {
            let reply = reply(&questions);
            ask_user_result(&questions, reply)
        }
        Err(message) => invalid_questions(&message),
    }
}

fn fixed(questions: &Vec<UserQuestion>) -> Reply {
    Reply::Answered(vec![
        UserAnswer {
            question_id: questions[0].id.clone(),
            selected_option_ids: vec!["api".to_string(), "cli".to_string()],
            other_text: None,
        },
        UserAnswer {
            question_id: questions[1].id.clone(),
            selected_option_ids: vec![],
            other_text: Some("Keep citations concise".to_string()),
        },
    ])
}

fn unavailable(_: &Vec<UserQuestion>) -> Reply {
    match UnavailableQuestioner.ask() {
        Ok(answers) => Reply::Answered(answers),
        Err(message) => Reply::Failed(message),
    }
}

fn cancelled(_: &Vec<UserQuestion>) -> Reply {
    Reply::Cancelled
}

#[test]
fn ask_user_returns_valid_structured_answers() {
    assert_eq!(ask_user_definition().name, "ask_user");
    let result = execute(&rich_args(), fixed);
    assert!(!result.is_error);
    let value = parse_json(&result.result).unwrap();
    let answers = value.get("answers").unwrap().as_array().unwrap();
    let selected = answers[0].get("selectedOptionIds").unwrap().as_array().unwrap();
    assert_eq!(selected[1].as_str(), Some("cli"));
    assert_eq!(answers[1].get("otherText").unwrap().as_str(), Some("Keep citations concise"));
}

#[test]
fn headless_questioner_fails_without_blocking() {
    let result = execute(&rich_args(), unavailable);
    assert!(result.is_error);
    assert!(result.result.contains("interactive_input_unavailable"));
}

#[test]
fn invalid_batches_are_rejected_before_prompting() {
    let result = execute(&parse_json("{\"questions\":[]}").unwrap(), fixed);
    assert!(result.is_error);
    assert!(result.result.contains("invalid_questions"));
}

#[test]
fn cancellation_stops_a_pending_question() {
    let result = execute(&rich_args(), cancelled);
    assert!(result.is_error);
    assert!(result.result.contains("cancelled"));
}

fn questions() -> Vec<UserQuestion> {
    decode(&rich_args()).unwrap()
}

fn problem(change: fn(&mut Vec<UserQuestion>)) -> Option<String> {
    let mut all = questions();
    change(&mut all);
    parse_questions(&rich_args(), Ok(all)).err()
}

#[test]
fn questions_are_checked() {
    assert_eq!(check_questions(&questions()), None);
    let said = |text: &str| Some(text.to_string());
    assert_eq!(problem(|_| {}), None);
    assert_eq!(problem(|q| q.clear()), said("questions must contain 1-3 items"));
    assert_eq!(
        problem(|q| {
            let more = questions();
            q.extend(more);
        }),
        said("questions must contain 1-3 items")
    );
    assert_eq!(
        problem(|q| q[1].id = "scope".to_string()),
        said("duplicate question id: scope")
    );
    assert_eq!(
        problem(|q| q[0].id = String::new()),
        said("question id must contain 1-64 characters")
    );
    assert_eq!(
        problem(|q| q[0].header = "é".repeat(41)),
        said("question header must contain 1-40 characters")
    );
    assert_eq!(
        problem(|q| q[0].question = String::new()),
        said("question text must contain 1-500 characters")
    );
    assert_eq!(
        problem(|q| {
            q[0].options.pop();
        }),
        said("question scope must contain 2-4 options")
    );
    assert_eq!(problem(|q| q[1].options.clear()), None);
    assert_eq!(
        problem(|q| q[0].options[1].id = "api".to_string()),
        said("duplicate option id in question scope")
    );
    assert_eq!(
        problem(|q| q[0].options[0].label = String::new()),
        said("option label must contain 1-80 characters")
    );
    assert_eq!(
        problem(|q| q[0].options[0].description = "é".repeat(241)),
        said("option description exceeds 240 characters")
    );
    assert_eq!(bounded("ok", 2, "x"), Ok(()));
    assert_eq!(bounded("too", 2, "x"), Err("x must contain 1-2 characters".to_string()));
    assert_eq!(
        parse_questions(&rich_args(), Err("bad".to_string())),
        Err("bad".to_string())
    );
    assert_eq!(
        parse_questions(&parse_json("{}").unwrap(), Ok(questions())),
        Err("questions is required".to_string())
    );
}

#[test]
fn kinds_of_questions_set_what_may_be_answered() {
    let args = |kind: &str| {
        parse_json(&format!("{{\"questions\":[{{\"kind\":\"{kind}\"}}]}}")).unwrap()
    };
    let first = || Ok(questions().into_iter().take(1).collect::<Vec<_>>());
    let free = parse_questions(&args("free_text"), first()).unwrap();
    assert!(free[0].options.is_empty());
    assert!(free[0].allow_other);
    assert!(!free[0].multi_select);
    assert!(!parse_questions(&args("single_select"), first()).unwrap()[0].multi_select);
    assert!(parse_questions(&args("multi_select"), first()).unwrap()[0].multi_select);
    assert_eq!(
        parse_questions(&args("other"), first()),
        Err("unsupported question kind".to_string())
    );
}

fn refused(change: fn(&mut Vec<UserAnswer>)) -> bool {
    let all = questions();
    match fixed(&all) {
        Reply::Answered(mut answers) => {
            change(&mut answers);
            let verdict = validate_answers(&all, &answers);
            let result = ask_user_result(&all, Reply::Answered(answers));
            assert_eq!(verdict.is_err(), result.is_error);
            verdict.is_err()
        }
        _ => unreachable!(),
    }
}

#[test]
fn answers_are_checked() {
    assert!(!refused(|_| {}));
    assert!(refused(|a| {
        a.pop();
    }));
    assert!(refused(|a| a[1].question_id = "scope".to_string()));
    assert!(refused(|a| a[0].question_id = "other".to_string()));
    assert!(refused(|a| a[0].selected_option_ids = vec!["none".to_string()]));
    assert!(refused(|a| a[0].selected_option_ids = vec!["api".to_string(), "api".to_string()]));
    assert!(refused(|a| a[0].selected_option_ids = vec![]));
    assert!(refused(|a| a[0].other_text = Some("more".to_string())));
    assert!(refused(|a| {
        a[1].selected_option_ids = vec!["none".to_string(), "tests".to_string()];
    }));
}

#[test]
fn answers_are_written_as_json() {
    let answers = vec![UserAnswer {
        question_id: "q".to_string(),
        selected_option_ids: vec!["a".to_string()],
        other_text: None,
    }];
    let written = parse_json(&answers_text(&answers)).unwrap();
    let first = &written.get("answers").unwrap().as_array().unwrap()[0];
    assert_eq!(first.get("questionId").unwrap().as_str(), Some("q"));
    assert_eq!(first.get("otherText"), None);
}
