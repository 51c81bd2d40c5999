//! The command line: what its flags ask for, and what it prints.
use crate::json::{member, ArrayBuilder, Json, JsonNumber, JsonView, NumberView, ObjectBuilder};
use crate::loop_runner::AgentStopReason;
use crate::permissions::StoredPermissionGrant;
use crate::run::{RunOutcome, RunWarning};
use crate::schema::{json_of_texts, number_json, texts_json};
use crate::storage::{
    json_time, shown_time, state_label, state_name, Credentials, LocalSession, SessionScanEntry,
};
use crate::text::{
    ascii_lower, begins_with, blank, cat2, cat3, cat4, cat5, chars_of, contains, decimal,
    decimal_value, decimals_read_as_their_number, finishes_with, has_text, is_blank, join, joined,
    lower_ascii, number_text, occurs_at, pad_end, padded_end, same, texts, trim, trimmed,
    trimmed_end, trimmed_is_empty_iff_blank, trimmed_start, white_space,
};
use crate::types::{CitationView, ModelSummary, SourceCitation, TokenUsage};
use crate::update::{version_text, UpdateOutcome};
use vstd::prelude::*;

verus! {

// ---------------------------------------------------------------------------------------------
// Flags and questions
// ---------------------------------------------------------------------------------------------

/// Whether a line says yes.
pub open spec fn says_yes(line: Seq<char>) -> bool {
    let word = ascii_lower(trimmed(line));
    word == "y"@ || word == "yes"@
}

/// Whether the user wants an update: only a plain yes counts.
pub fn accepts_update(answer: &str) -> (r: bool)
    ensures
        r == says_yes(answer@),
{
    let word = lower_ascii(trim(answer).as_str());
    same(word.as_str(), "y") || same(word.as_str(), "yes")
}

/// Adds a line.
fn push_line(rows: &mut Vec<String>, line: String)
    ensures
        texts(final(rows)@) == texts(old(rows)@).push(line@),
{
    let ghost before = texts(rows@);
    rows.push(line);
    assert(texts(rows@) =~= before.push(line@));
}

fn no_lines() -> (r: Vec<String>)
    ensures
        texts(r@) == Seq::<Seq<char>>::empty(),
{
    let r: Vec<String> = Vec::new();
    assert(texts(r@) =~= Seq::empty());
    r
}

/// What is said of an error besides the error itself.
pub open spec fn error_hints(error: Seq<char>) -> Seq<Seq<char>> {
    let credits = if has_text(error, "insufficient_credits"@) {
        seq!["Top up at the Ronin web app."@]
    } else {
        Seq::empty()
    };
    if has_text(error, "cli_upgrade_required"@) {
        credits.push("Upgrade the Ronin CLI before running another agent task."@)
    } else {
        credits
    }
}

/// What is said of an error besides the error itself.
pub fn hints_for(error: &str) -> (r: Vec<String>)
    ensures
        texts(r@) == error_hints(error@),
{
    let mut r = no_lines();
    if contains(error, "insufficient_credits") {
        push_line(&mut r, "Top up at the Ronin web app.".to_owned());
    }
    if contains(error, "cli_upgrade_required") {
        push_line(
            &mut r,
            "Upgrade the Ronin CLI before running another agent task.".to_owned(),
        );
    }
    assert(texts(r@) =~= error_hints(error@));
    r
}

/// The session that the flags ask for.
#[derive(Debug, PartialEq, Eq)]
pub enum SessionChoice {
    /// A new one.
    New,
    /// The one written last in the directory.
    Latest,
    /// One that the user picks.
    Pick,
    /// The one of an id.
    Resume(String),
}

/// The session that the flags ask for.
pub fn session_choice(continued: bool, resume: Option<&str>) -> (r: Result<SessionChoice, String>)
    ensures
        match r {
            Err(e) => continued && resume is Some && e@
                == "Use either --continue or --resume, not both."@,
            Ok(choice) => !(continued && resume is Some) && match resume {
                Some(id) => if id@.len() == 0 {
                    choice is Pick
                } else {
                    choice matches SessionChoice::Resume(given) && given@ == id@
                },
                None => if continued {
                    choice is Latest
                } else {
                    choice is New
                },
            },
        },
{
    match resume {
        Some(id) => {
            if continued {
                return Err("Use either --continue or --resume, not both.".to_owned());
            }
            if id.is_empty() {
                Ok(SessionChoice::Pick)
            } else {
                Ok(SessionChoice::Resume(id.to_owned()))
            }
        },
        None => Ok(
            if continued {
                SessionChoice::Latest
            } else {
                SessionChoice::New
            },
        ),
    }
}

/// What is said where there is no session to go on with.
pub fn no_session_text() -> (r: String)
    ensures
        r@ == "No local session exists for this workspace."@,
{
    "No local session exists for this workspace.".to_owned()
}

/// Whether a session may go on in a directory.
#[derive(Debug, PartialEq, Eq)]
pub enum ResumeCheck {
    /// It belongs there.
    Go,
    /// The user is to be asked this first.
    Ask(String),
    /// It may not, for this reason.
    Refuse(String),
}

/// Whether a session may go on in a directory: one of another directory only where the user can be
/// asked.
pub fn check_resume(session: &LocalSession, cwd: &str, interactive: bool) -> (r: ResumeCheck)
    ensures
        if session.cwd@ == cwd@ {
            r is Go
        } else if interactive {
            r matches ResumeCheck::Ask(text) && text@ == "Session "@ + session.id@
                + " belongs to "@ + session.cwd@ + ". Resume in "@ + cwd@ + "? [y/N] "@
        } else {
            r matches ResumeCheck::Refuse(text) && text@ == "Session "@ + session.id@
                + " belongs to "@ + session.cwd@
                + "; resume it from that workspace or use an interactive terminal."@
        },
{
    if same(session.cwd.as_str(), cwd) {
        return ResumeCheck::Go;
    }
    let head = cat4("Session ", session.id.as_str(), " belongs to ", session.cwd.as_str());
    if interactive {
        ResumeCheck::Ask(cat4(head.as_str(), ". Resume in ", cwd, "? [y/N] "))
    } else {
        ResumeCheck::Refuse(
            cat2(
                head.as_str(),
                "; resume it from that workspace or use an interactive terminal.",
            ),
        )
    }
}

/// Whether the user goes on with a session of another directory: only a plain yes counts.
pub fn confirm_resume(answer: &str) -> (r: Result<(), String>)
    ensures
        match r {
            Ok(_) => says_yes(answer@),
            Err(e) => !says_yes(answer@) && e@ == "Session resume cancelled."@,
        },
{
    if accepts_update(answer) {
        Ok(())
    } else {
        Err("Session resume cancelled.".to_owned())
    }
}

/// Whether a character is a decimal digit.
pub open spec fn is_digit(c: char) -> bool {
    '0' <= c <= '9'
}

/// The number that decimal digits stand for.
pub open spec fn digits_value(s: Seq<char>) -> nat
    decreases s.len(),
{
    if s.len() == 0 {
        0
    } else {
        10 * digits_value(s.drop_last()) + (s.last() as nat - '0' as nat) as nat
    }
}

/// Whether a text is made of decimal digits.
pub open spec fn all_digits(s: Seq<char>) -> bool {
    s.len() > 0 && forall|i: int| 0 <= i < s.len() ==> is_digit(#[trigger] s[i])
}

/// The digits of a number, which may have a plus sign before them.
pub open spec fn without_plus(s: Seq<char>) -> Seq<char> {
    if s.len() > 0 && s[0] == '+' {
        s.skip(1)
    } else {
        s
    }
}

/// The place that a line picks among `count` places, which are numbered from 1.
pub open spec fn picked(line: Seq<char>, count: nat) -> Option<nat> {
    let digits = without_plus(trimmed(line));
    if all_digits(digits) && 1 <= digits_value(digits) <= count {
        Some((digits_value(digits) - 1) as nat)
    } else {
        None
    }
}

proof fn digits_value_grows(s: Seq<char>, k: int)
    requires
        0 <= k <= s.len(),
        forall|i: int| 0 <= i < s.len() ==> is_digit(#[trigger] s[i]),
    ensures
        digits_value(s.take(k)) <= digits_value(s),
    decreases s.len(),
{
    if k < s.len() {
        assert(s.drop_last().take(k) =~= s.take(k));
        digits_value_grows(s.drop_last(), k);
    } else {
        assert(s.take(k) =~= s);
    }
}

/// The place that a line picks among `count` places, which are numbered from 1.
pub fn pick_index(line: &str, count: usize) -> (r: Result<usize, String>)
    ensures
        match r {
            Ok(i) => picked(line@, count as nat) == Some(i as nat),
            Err(e) => picked(line@, count as nat) is None && e@
                == "Session selection cancelled or invalid."@,
        },
{
    let text = trim(line);
    let v = chars_of(text.as_str());
    let from: usize = if v.len() > 0 && v[0] == '+' {
        1
    } else {
        0
    };
    let ghost digits = without_plus(trimmed(line@));
    assert(digits =~= v@.skip(from as int));
    if v.len() == from {
        return Err("Session selection cancelled or invalid.".to_owned());
    }
    let mut value: usize = 0;
    let mut i: usize = from;
    while i < v.len()
        invariant
            from <= i <= v@.len(),
            from <= 1,
            digits == v@.skip(from as int),
            digits == without_plus(trimmed(line@)),
            value <= count,
            value == digits_value(digits.take(i - from)),
            forall|k: int| 0 <= k < i - from ==> is_digit(#[trigger] digits[k]),
        decreases v.len() - i,
    {
        let c = v[i];
        assert(digits[i - from] == c);
        if !('0' <= c && c <= '9') {
            assert(!all_digits(digits));
            return Err("Session selection cancelled or invalid.".to_owned());
        }
        let d: usize = (c as u32 - 48) as usize;
        let ghost head = digits.take(i - from + 1);
        assert(head.drop_last() =~= digits.take(i - from));
        assert(head.last() == c);
        assert(10 * value + d == digits_value(head));
        if value > count / 10 || d > count - value * 10 {
            proof {
                if all_digits(digits) {
                    digits_value_grows(digits, i - from + 1);
                }
            }
            return Err("Session selection cancelled or invalid.".to_owned());
        }
        value = value * 10 + d;
        i += 1;
    }
    assert(digits.take(i - from) =~= digits);
    if value == 0 {
        return Err("Session selection cancelled or invalid.".to_owned());
    }
    Ok(value - 1)
}

/// The model of a run, from the one that was asked for, the one of the session and the one in the
/// settings.
pub open spec fn model_chosen(
    given: Option<Seq<char>>,
    session: Option<Seq<char>>,
    configured: Option<Seq<char>>,
) -> Option<Seq<char>> {
    match given {
        Some(model) => Some(model),
        None => match session {
            Some(model) => Some(model),
            None => configured,
        },
    }
}

/// The model of a run: by the flag, then by the session, then by the settings.
pub fn choose_model(
    given: Option<String>,
    session: Option<&LocalSession>,
    configured: &Option<String>,
) -> (r: Option<String>)
    ensures
        r.deep_view() == model_chosen(
            given.deep_view(),
            match session {
                Some(s) => Some(s.model@),
                None => None,
            },
            configured.deep_view(),
        ),
{
    match given {
        Some(model) => Some(model),
        None => match session {
            Some(s) => Some(s.model.clone()),
            None => match configured {
                Some(model) => Some(model.clone()),
                None => None,
            },
        },
    }
}

/// The model of a run that nobody is there to choose one for.
pub fn require_model(model: Option<String>) -> (r: Result<String, String>)
    ensures
        match r {
            Ok(chosen) => model matches Some(given) && chosen@ == given@,
            Err(e) => model is None && e@
                == "No model selected. Pass --model or set default_model in ronin.toml."@,
        },
{
    match model {
        Some(chosen) => Ok(chosen),
        None => Err(
            "No model selected. Pass --model or set default_model in ronin.toml.".to_owned(),
        ),
    }
}

/// A prompt with what was piped in behind it.
pub open spec fn full_prompt(prompt: Seq<char>, piped: Option<Seq<char>>) -> Seq<char> {
    match piped {
        Some(text) => if blank(text) {
            prompt
        } else {
            prompt + "\n\n<stdin>\n"@ + trimmed(text) + "\n</stdin>"@
        },
        None => prompt,
    }
}

/// A prompt with what was piped in behind it.
pub fn prompt_with_stdin(prompt: &str, piped: Option<&str>) -> (r: String)
    ensures
        r@ == full_prompt(prompt@, piped.deep_view()),
{
    match piped {
        Some(text) => {
            if is_blank(text) {
                prompt.to_owned()
            } else {
                cat4(prompt, "\n\n<stdin>\n", trim(text).as_str(), "\n</stdin>")
            }
        },
        None => prompt.to_owned(),
    }
}

/// Whether the web is searched.
pub fn searches_web(configured: bool, disabled: bool) -> (r: bool)
    ensures
        r == (configured && !disabled),
{
    configured && !disabled
}

/// The name of a reason to stop.
pub open spec fn reason_label(reason: AgentStopReason) -> Seq<char> {
    match reason {
        AgentStopReason::Complete => "complete"@,
        AgentStopReason::MaxRounds => "max_rounds"@,
        AgentStopReason::BudgetExhausted => "budget_exhausted"@,
        AgentStopReason::ContextLimit => "context_limit"@,
        AgentStopReason::Aborted => "aborted"@,
        AgentStopReason::Stopped => "stopped"@,
    }
}

/// The name of a reason to stop.
pub fn stop_reason_name(reason: &AgentStopReason) -> (r: &'static str)
    ensures
        r@ == reason_label(*reason),
{
    match reason {
        AgentStopReason::Complete => "complete",
        AgentStopReason::MaxRounds => "max_rounds",
        AgentStopReason::BudgetExhausted => "budget_exhausted",
        AgentStopReason::ContextLimit => "context_limit",
        AgentStopReason::Aborted => "aborted",
        AgentStopReason::Stopped => "stopped",
    }
}

/// What is said of an update.
pub fn update_text(outcome: &UpdateOutcome) -> (r: String)
    ensures
        r@ == match outcome {
            UpdateOutcome::Updated { from, to } => "Updated Ronin from v"@ + version_text(from@)
                + " to v"@ + version_text(to@) + "."@,
            UpdateOutcome::Current { version } => "Ronin v"@ + version_text(version@)
                + " is already up to date."@,
        },
{
    match outcome {
        UpdateOutcome::Updated { from, to } => cat5(
            "Updated Ronin from v",
            from.to_text().as_str(),
            " to v",
            to.to_text().as_str(),
            ".",
        ),
        UpdateOutcome::Current { version } => cat3(
            "Ronin v",
            version.to_text().as_str(),
            " is already up to date.",
        ),
    }
}

// ---------------------------------------------------------------------------------------------
// Lists
// ---------------------------------------------------------------------------------------------

/// The line of a model.
pub open spec fn model_line(model: ModelSummary) -> Seq<char> {
    padded_end(model.model_id@, 42) + " "@ + padded_end(model.display_name@, 24) + " "@ + (
    if model.supports_tools {
        "tools"@
    } else {
        "no-tools"@
    }) + (match model.credit_price_micro {
        Some(price) => " · "@ + decimal(price as nat) + " µc/token"@,
        None => ""@,
    })
}

/// The line of a model.
pub fn show_model(model: &ModelSummary) -> (r: String)
    ensures
        r@ == model_line(*model),
{
    let head = cat4(
        pad_end(model.model_id.as_str(), 42).as_str(),
        " ",
        pad_end(model.display_name.as_str(), 24).as_str(),
        " ",
    );
    let tools = if model.supports_tools {
        "tools"
    } else {
        "no-tools"
    };
    let price = match model.credit_price_micro {
        Some(price) => cat3(" · ", number_text(price).as_str(), " µc/token"),
        None => "".to_owned(),
    };
    cat3(head.as_str(), tools, price.as_str())
}

/// The lines of models: only those with tools where only they are wanted.
pub open spec fn model_lines(models: Seq<ModelSummary>, tools_only: bool) -> Seq<Seq<char>>
    decreases models.len(),
{
    if models.len() == 0 {
        Seq::empty()
    } else if tools_only && !models.last().supports_tools {
        model_lines(models.drop_last(), tools_only)
    } else {
        model_lines(models.drop_last(), tools_only).push(model_line(models.last()))
    }
}

/// The lines of models.
pub fn list_models(models: &Vec<ModelSummary>, tools_only: bool) -> (r: Vec<String>)
    ensures
        texts(r@) == model_lines(models@, tools_only),
{
    let mut r = no_lines();
    let mut i: usize = 0;
    while i < models.len()
        invariant
            i <= models@.len(),
            texts(r@) == model_lines(models@.take(i as int), tools_only),
        decreases models.len() - i,
    {
        assert(models@.take(i + 1).drop_last() =~= models@.take(i as int));
        if !tools_only || models[i].supports_tools {
            push_line(&mut r, show_model(&models[i]));
        }
        i += 1;
    }
    assert(models@.take(i as int) =~= models@);
    r
}

/// The title of a session as it is shown.
pub open spec fn title_shown(session: LocalSession) -> Seq<char> {
    match session.title {
        Some(title) => title@,
        None => "Untitled session"@,
    }
}

/// The title of a session as it is shown.
pub fn show_title(session: &LocalSession) -> (r: &str)
    ensures
        r@ == title_shown(*session),
{
    match &session.title {
        Some(title) => title.as_str(),
        None => "Untitled session",
    }
}

/// The lines of a session in a list; what it cost is given as it is shown.
pub open spec fn session_lines(session: LocalSession, credits: Seq<char>) -> Seq<Seq<char>> {
    seq![
        session.id@ + "  "@ + padded_end(state_label(session.state), 11) + " "@ + title_shown(
            session,
        ),
        "  "@ + shown_time(session.updated_at) + " · "@ + session.model@ + " · "@ + decimal(
            session.rounds as nat,
        ) + " rounds · "@ + decimal(session.compaction_count as nat) + " compactions · "@ + credits
            + " credits"@,
        "  "@ + session.cwd@,
    ]
}

/// The lines of a session in a list.
pub fn show_session(session: &LocalSession, credits: &str) -> (r: Vec<String>)
    ensures
        texts(r@) == session_lines(*session, credits@),
{
    let mut r = no_lines();
    push_line(
        &mut r,
        cat5(
            session.id.as_str(),
            "  ",
            pad_end(state_name(&session.state), 11).as_str(),
            " ",
            show_title(session),
        ),
    );
    let head = cat5(
        "  ",
        session.updated_at.to_shown().as_str(),
        " · ",
        session.model.as_str(),
        " · ",
    );
    let middle = cat5(
        head.as_str(),
        number_text(session.rounds as u64).as_str(),
        " rounds · ",
        number_text(session.compaction_count as u64).as_str(),
        " compactions · ",
    );
    push_line(&mut r, cat3(middle.as_str(), credits, " credits"));
    push_line(&mut r, cat2("  ", session.cwd.as_str()));
    assert(texts(r@) =~= session_lines(*session, credits@));
    r
}

/// What is said where a list of sessions is empty.
pub fn no_sessions_text(all: bool) -> (r: String)
    ensures
        r@ == if all {
            "No local sessions."@
        } else {
            "No local sessions for this workspace."@
        },
{
    if all {
        "No local sessions.".to_owned()
    } else {
        "No local sessions for this workspace.".to_owned()
    }
}

/// The lines of the sessions that the user picks from, before the question.
pub open spec fn choice_lines(sessions: Seq<LocalSession>, n: int) -> Seq<Seq<char>>
    decreases n,
{
    if n <= 0 {
        seq!["Select a session to resume:"@]
    } else {
        let s = sessions[n - 1];
        choice_lines(sessions, n - 1).push(
            "  "@ + decimal(n as nat) + ") "@ + title_shown(s) + " · "@ + s.model@ + " · "@
                + shown_time(s.updated_at),
        ).push("     "@ + s.id@)
    }
}

/// The lines of the sessions that the user picks from, before the question; or why there is nothing
/// to pick.
pub fn show_choices(sessions: &Vec<LocalSession>, interactive: bool) -> (r: Result<
    Vec<String>,
    String,
>)
    ensures
        match r {
            Ok(rows) => interactive && sessions@.len() > 0 && texts(rows@) == choice_lines(
                sessions@,
                sessions@.len() as int,
            ),
            Err(e) => if !interactive {
                e@ == "--resume without a session ID requires an interactive terminal."@
            } else {
                sessions@.len() == 0 && e@ == "No local session exists for this workspace."@
            },
        },
{
    if !interactive {
        return Err(
            "--resume without a session ID requires an interactive terminal.".to_owned(),
        );
    }
    if sessions.len() == 0 {
        return Err(no_session_text());
    }
    let mut r = no_lines();
    push_line(&mut r, "Select a session to resume:".to_owned());
    assert(texts(r@) =~= choice_lines(sessions@, 0));
    let mut i: usize = 0;
    while i < sessions.len()
        invariant
            i <= sessions@.len(),
            texts(r@) == choice_lines(sessions@, i as int),
        decreases sessions.len() - i,
    {
        let s = &sessions[i];
        let head = cat5(
            "  ",
            number_text(i as u64 + 1).as_str(),
            ") ",
            show_title(s),
            " · ",
        );
        push_line(
            &mut r,
            cat4(
                head.as_str(),
                s.model.as_str(),
                " · ",
                s.updated_at.to_shown().as_str(),
            ),
        );
        push_line(&mut r, cat2("     ", s.id.as_str()));
        i += 1;
    }
    Ok(r)
}

/// The lines of the sessions in the trash.
pub open spec fn trash_lines(sessions: Seq<LocalSession>, all: bool, n: int) -> Seq<Seq<char>>
    decreases n,
{
    if sessions.len() == 0 {
        seq![
            "Session trash is empty"@ + (if all {
                ""@
            } else {
                " for this workspace"@
            }) + "."@,
        ]
    } else if n <= 0 {
        Seq::empty()
    } else {
        let s = sessions[n - 1];
        trash_lines(sessions, all, n - 1).push(
            s.id@ + "  "@ + title_shown(s) + "  "@ + shown_time(s.updated_at),
        ).push("  "@ + s.cwd@)
    }
}

/// The lines of the sessions in the trash.
pub fn show_trash(sessions: &Vec<LocalSession>, all: bool) -> (r: Vec<String>)
    ensures
        texts(r@) == trash_lines(sessions@, all, sessions@.len() as int),
{
    let mut r = no_lines();
    if sessions.len() == 0 {
        let place = if all {
            ""
        } else {
            " for this workspace"
        };
        push_line(&mut r, cat3("Session trash is empty", place, "."));
        assert(texts(r@) =~= trash_lines(sessions@, all, 0));
        return r;
    }
    let mut i: usize = 0;
    while i < sessions.len()
        invariant
            i <= sessions@.len(),
            sessions@.len() > 0,
            texts(r@) == trash_lines(sessions@, all, i as int),
        decreases sessions.len() - i,
    {
        let s = &sessions[i];
        push_line(
            &mut r,
            cat5(
                s.id.as_str(),
                "  ",
                show_title(s),
                "  ",
                s.updated_at.to_shown().as_str(),
            ),
        );
        push_line(&mut r, cat2("  ", s.cwd.as_str()));
        i += 1;
    }
    r
}

/// What is done to a session by its id.
#[derive(Debug, Clone, Copy, PartialEq, Eq, Structural)]
pub enum SessionChange {
    Archive,
    Unarchive,
    Delete,
    Restore,
}

/// What is said of a change of a session.
pub fn session_changed_text(change: SessionChange, id: &str) -> (r: String)
    ensures
        r@ == match change {
            SessionChange::Archive => "Archived session "@ + id@ + "."@,
            SessionChange::Unarchive => "Unarchived session "@ + id@ + "."@,
            SessionChange::Delete => "Moved session "@ + id@ + " to trash. It can be restored."@,
            SessionChange::Restore => "Restored session "@ + id@ + "."@,
        },
{
    match change {
        SessionChange::Archive => cat3("Archived session ", id, "."),
        SessionChange::Unarchive => cat3("Unarchived session ", id, "."),
        SessionChange::Delete => cat3("Moved session ", id, " to trash. It can be restored."),
        SessionChange::Restore => cat3("Restored session ", id, "."),
    }
}

/// What is said of a session that was renamed.
pub fn renamed_text(session: &LocalSession) -> (r: String)
    ensures
        r@ == "Renamed session "@ + session.id@ + " to "@ + title_shown(*session) + "."@,
{
    cat5("Renamed session ", session.id.as_str(), " to ", show_title(session), ".")
}

/// What is said of a session that was forked.
pub fn forked_text(id: &str, fork: &str) -> (r: String)
    ensures
        r@ == "Forked session "@ + id@ + " as "@ + fork@ + "."@,
{
    cat5("Forked session ", id, " as ", fork, ".")
}

/// Refuses to empty the trash unless the user insists.
pub fn check_empty_trash(yes: bool) -> (r: Result<(), String>)
    ensures
        match r {
            Ok(_) => yes,
            Err(e) => !yes && e@
                == "Emptying session trash is permanent. Pass --yes to continue."@,
        },
{
    if yes {
        Ok(())
    } else {
        Err("Emptying session trash is permanent. Pass --yes to continue.".to_owned())
    }
}

/// What is said of a trash that was emptied.
pub fn emptied_text(removed: u64) -> (r: String)
    ensures
        r@ == "Permanently removed "@ + decimal(removed as nat) + " session(s) from trash."@,
{
    cat3("Permanently removed ", number_text(removed).as_str(), " session(s) from trash.")
}

/// The lines of what a scan found, of the first `n` entries.
pub open spec fn scan_lines(entries: Seq<SessionScanEntry>, n: int) -> Seq<Seq<char>>
    decreases n,
{
    if n <= 0 {
        Seq::empty()
    } else {
        let before = scan_lines(entries, n - 1);
        match entries[n - 1] {
            SessionScanEntry::Session(_) => before,
            SessionScanEntry::Unsupported { id, version } => before.push(
                "Unsupported: "@ + id@ + " uses schema version "@ + decimal(version as nat) + "."@,
            ),
            SessionScanEntry::Quarantined { id, reason, path } => before.push(
                "Quarantined: "@ + id@ + ": "@ + reason@,
            ).push("  "@ + path@),
        }
    }
}

/// How many of the first `n` entries are sessions.
pub open spec fn healthy_count(entries: Seq<SessionScanEntry>, n: int) -> nat
    decreases n,
{
    if n <= 0 {
        0
    } else {
        healthy_count(entries, n - 1) + if entries[n - 1] is Session {
            1nat
        } else {
            0
        }
    }
}

/// What a scan says: its lines, and whether it found something wrong.
pub fn scan_report(entries: &Vec<SessionScanEntry>) -> (r: (Vec<String>, Result<(), String>))
    ensures
        ({
            let n = entries@.len() as int;
            let healthy = healthy_count(entries@, n);
            &&& texts(r.0@) == scan_lines(entries@, n).push(
                "Session store: "@ + decimal(healthy) + " healthy, "@ + decimal(
                    (n - healthy) as nat,
                ) + " problem(s)."@,
            )
            &&& match r.1 {
                Ok(_) => healthy == n,
                Err(e) => healthy < n && e@ == "Session doctor found one or more problems."@,
            }
        }),
{
    let mut rows = no_lines();
    let mut healthy: usize = 0;
    let mut i: usize = 0;
    while i < entries.len()
        invariant
            i <= entries@.len(),
            healthy <= i,
            healthy == healthy_count(entries@, i as int),
            texts(rows@) == scan_lines(entries@, i as int),
        decreases entries.len() - i,
    {
        match &entries[i] {
            SessionScanEntry::Session(_) => {
                healthy = healthy + 1;
            },
            SessionScanEntry::Unsupported { id, version } => {
                push_line(
                    &mut rows,
                    cat5(
                        "Unsupported: ",
                        id.as_str(),
                        " uses schema version ",
                        number_text(*version).as_str(),
                        ".",
                    ),
                );
            },
            SessionScanEntry::Quarantined { id, reason, path } => {
                push_line(
                    &mut rows,
                    cat4("Quarantined: ", id.as_str(), ": ", reason.as_str()),
                );
                push_line(&mut rows, cat2("  ", path.as_str()));
            },
        }
        i += 1;
    }
    let failed: usize = entries.len() - healthy;
    push_line(
        &mut rows,
        cat5(
            "Session store: ",
            number_text(healthy as u64).as_str(),
            " healthy, ",
            number_text(failed as u64).as_str(),
            " problem(s).",
        ),
    );
    if failed > 0 {
        (rows, Err("Session doctor found one or more problems.".to_owned()))
    } else {
        (rows, Ok(()))
    }
}

/// The grants in a list: those of a workspace unless all are wanted.
pub open spec fn listed_grants(grants: Seq<StoredPermissionGrant>, all: bool, root: Seq<char>) -> Seq<
    StoredPermissionGrant,
>
    decreases grants.len(),
{
    if grants.len() == 0 {
        Seq::empty()
    } else if all || grants.last().workspace_path@ == root {
        listed_grants(grants.drop_last(), all, root).push(grants.last())
    } else {
        listed_grants(grants.drop_last(), all, root)
    }
}

/// The grants in a list.
pub fn select_grants(grants: &Vec<StoredPermissionGrant>, all: bool, root: &str) -> (r: Vec<
    StoredPermissionGrant,
>)
    ensures
        r@ == listed_grants(grants@, all, root@),
{
    let mut r: Vec<StoredPermissionGrant> = Vec::new();
    let mut i: usize = 0;
    while i < grants.len()
        invariant
            i <= grants@.len(),
            r@ == listed_grants(grants@.take(i as int), all, root@),
        decreases grants.len() - i,
    {
        assert(grants@.take(i + 1).drop_last() =~= grants@.take(i as int));
        if all || same(grants[i].workspace_path.as_str(), root) {
            r.push(grants[i].clone());
        }
        i += 1;
    }
    assert(grants@.take(i as int) =~= grants@);
    r
}

/// The lines of the first `n` grants.
pub open spec fn grant_lines(grants: Seq<StoredPermissionGrant>, n: int) -> Seq<Seq<char>>
    decreases n,
{
    if n <= 0 {
        Seq::empty()
    } else {
        let g = grants[n - 1];
        grant_lines(grants, n - 1).push(
            g.id@ + "  "@ + padded_end(g.kind@, 7) + " "@ + g.value@,
        ).push("  "@ + g.workspace_path@)
    }
}

/// The lines of grants; a line that says so where there are none.
pub fn show_grants(grants: &Vec<StoredPermissionGrant>, all: bool) -> (r: Vec<String>)
    ensures
        texts(r@) == if grants@.len() == 0 {
            seq![
                "No stored permission grants"@ + (if all {
                    ""@
                } else {
                    " for this workspace"@
                }) + "."@,
            ]
        } else {
            grant_lines(grants@, grants@.len() as int)
        },
{
    let mut r = no_lines();
    if grants.len() == 0 {
        let place = if all {
            ""
        } else {
            " for this workspace"
        };
        push_line(&mut r, cat3("No stored permission grants", place, "."));
        assert(texts(r@) =~= seq![
            "No stored permission grants"@ + (if all {
                ""@
            } else {
                " for this workspace"@
            }) + "."@,
        ]);
        return r;
    }
    let mut i: usize = 0;
    while i < grants.len()
        invariant
            i <= grants@.len(),
            texts(r@) == grant_lines(grants@, i as int),
        decreases grants.len() - i,
    {
        let g = &grants[i];
        push_line(
            &mut r,
            cat5(
                g.id.as_str(),
                "  ",
                pad_end(g.kind.as_str(), 7).as_str(),
                " ",
                g.value.as_str(),
            ),
        );
        push_line(&mut r, cat2("  ", g.workspace_path.as_str()));
        i += 1;
    }
    r
}

/// What is said of a grant that was to be taken back.
pub fn revoked_text(id: &str, found: bool) -> (r: Result<String, String>)
    ensures
        match r {
            Ok(text) => found && text@ == "Revoked permission grant "@ + id@ + "."@,
            Err(e) => !found && e@ == "Permission grant "@ + id@ + " was not found."@,
        },
{
    if found {
        Ok(cat3("Revoked permission grant ", id, "."))
    } else {
        Err(cat3("Permission grant ", id, " was not found."))
    }
}

/// Refuses to take back grants unless the user says which.
pub fn check_reset(workspace: bool) -> (r: Result<(), String>)
    ensures
        match r {
            Ok(_) => workspace,
            Err(e) => !workspace && e@
                == "Pass --workspace to reset grants for the current workspace."@,
        },
{
    if workspace {
        Ok(())
    } else {
        Err("Pass --workspace to reset grants for the current workspace.".to_owned())
    }
}

/// What is said of grants that were taken back.
pub fn reset_text(removed: u64) -> (r: String)
    ensures
        r@ == "Removed "@ + decimal(removed as nat) + " permission grant(s) for this workspace."@,
{
    cat3("Removed ", number_text(removed).as_str(), " permission grant(s) for this workspace.")
}

// ---------------------------------------------------------------------------------------------
// The health of the program
// ---------------------------------------------------------------------------------------------

/// What was found when the health of the program was looked at: the balance and the number of
/// models, or why they could not be had.
#[derive(Debug, PartialEq, Eq)]
pub struct Health {
    pub api: bool,
    pub balance: Result<String, String>,
    pub models: Result<u64, String>,
}

/// Whether an account can be reached with credentials.
pub open spec fn can_sign_in(c: Credentials) -> bool {
    c.access_token is Some || c.dev_user_id is Some
}

/// The lines of the health of the program.
pub open spec fn health_lines(version: Seq<char>, c: Credentials, h: Health) -> Seq<Seq<char>> {
    seq![
        "Rust: ok ("@ + version + ")"@,
        if can_sign_in(c) {
            "Credentials: ok"@
        } else {
            "Credentials: missing"@
        },
        if h.api {
            "API: ok"@
        } else {
            "API: unreachable"@
        },
        "Balance: "@ + match h.balance {
            Ok(text) => text@,
            Err(e) => e@,
        },
        match h.models {
            Ok(n) => "Models: "@ + decimal(n as nat) + " available"@,
            Err(e) => "Models: "@ + e@,
        },
        "Search: native Rust engine"@,
    ]
}

/// Whether nothing is wrong.
pub open spec fn is_healthy(c: Credentials, h: Health) -> bool {
    can_sign_in(c) && h.api && h.balance is Ok && h.models is Ok
}

/// The lines of the health of the program, and whether something is wrong.
pub fn health_report(version: &str, c: &Credentials, h: &Health) -> (r: (
    Vec<String>,
    Result<(), String>,
))
    ensures
        texts(r.0@) == health_lines(version@, *c, *h),
        match r.1 {
            Ok(_) => is_healthy(*c, *h),
            Err(e) => !is_healthy(*c, *h) && e@ == "Doctor found one or more problems."@,
        },
{
    let mut rows = no_lines();
    push_line(&mut rows, cat3("Rust: ok (", version, ")"));
    let signed = c.access_token.is_some() || c.dev_user_id.is_some();
    push_line(
        &mut rows,
        if signed {
            "Credentials: ok".to_owned()
        } else {
            "Credentials: missing".to_owned()
        },
    );
    push_line(
        &mut rows,
        if h.api {
            "API: ok".to_owned()
        } else {
            "API: unreachable".to_owned()
        },
    );
    let mut ok = signed && h.api;
    match &h.balance {
        Ok(text) => push_line(&mut rows, cat2("Balance: ", text.as_str())),
        Err(e) => {
            push_line(&mut rows, cat2("Balance: ", e.as_str()));
            ok = false;
        },
    }
    match &h.models {
        Ok(n) => push_line(&mut rows, cat3("Models: ", number_text(*n).as_str(), " available")),
        Err(e) => {
            push_line(&mut rows, cat2("Models: ", e.as_str()));
            ok = false;
        },
    }
    push_line(&mut rows, "Search: native Rust engine".to_owned());
    assert(texts(rows@) =~= health_lines(version@, *c, *h));
    if ok {
        (rows, Ok(()))
    } else {
        (rows, Err("Doctor found one or more problems.".to_owned()))
    }
}

// ---------------------------------------------------------------------------------------------
// JSON
// ---------------------------------------------------------------------------------------------

/// A decimal number as JSON, by its text.
pub open spec fn decimal_json(text: Seq<char>) -> JsonView {
    JsonView::Number(NumberView::Decimal(text))
}

/// What JSON says of a session in a list; what it cost is given by its text.
pub open spec fn session_in_json(s: LocalSession, credits: Seq<char>) -> Map<Seq<char>, JsonView> {
    Map::empty().insert("id"@, JsonView::Text(s.id@)).insert(
        "workspace"@,
        JsonView::Text(s.cwd@),
    ).insert("model"@, JsonView::Text(s.model@)).insert(
        "state"@,
        JsonView::Text(state_label(s.state)),
    ).insert("updatedAt"@, JsonView::Text(json_time(s.updated_at))).insert(
        "rounds"@,
        number_json(s.rounds as nat),
    ).insert("compactionCount"@, number_json(s.compaction_count as nat)).insert(
        "costCredits"@,
        decimal_json(credits),
    )
}

fn begin_session_json(s: &LocalSession, credits: &str) -> (r: ObjectBuilder)
    ensures
        r.object() == session_in_json(*s, credits@),
{
    let mut o = ObjectBuilder::new();
    o.put_text("id", s.id.as_str());
    o.put_text("workspace", s.cwd.as_str());
    o.put_text("model", s.model.as_str());
    o.put_text("state", state_name(&s.state));
    o.put_text("updatedAt", s.updated_at.to_json_text().as_str());
    o.put_number("rounds", s.rounds as u64);
    o.put_number("compactionCount", s.compaction_count as u64);
    o.put("costCredits", Json::Number(JsonNumber::Decimal(credits.to_owned())));
    o
}

/// What JSON says of a session in a list; what it cost is given by its text.
pub fn session_summary(s: &LocalSession, credits: &str) -> (r: Json)
    ensures
        r@ == JsonView::Object(session_in_json(*s, credits@)),
{
    begin_session_json(s, credits).finish()
}

/// What JSON says of a session in the trash: its title too.
pub fn session_json(s: &LocalSession, credits: &str) -> (r: Json)
    ensures
        r@ == JsonView::Object(
            session_in_json(*s, credits@).insert(
                "title"@,
                match s.title {
                    Some(title) => JsonView::Text(title@),
                    None => JsonView::Null,
                },
            ),
        ),
{
    let mut o = begin_session_json(s, credits);
    match &s.title {
        Some(title) => o.put("title", Json::Text(title.clone())),
        None => o.put("title", Json::Null),
    }
    o.finish()
}

/// A number as JSON, `null` where there is none.
pub open spec fn optional_number(n: Option<u64>) -> JsonView {
    match n {
        Some(n) => number_json(n as nat),
        None => JsonView::Null,
    }
}

fn number_or_null(n: Option<u64>) -> (r: Json)
    ensures
        r@ == optional_number(n),
{
    match n {
        Some(n) => Json::Number(JsonNumber::Unsigned(n)),
        None => Json::Null,
    }
}

/// The tokens of a completion as JSON.
pub open spec fn usage_json(usage: Option<TokenUsage>) -> JsonView {
    match usage {
        Some(u) => JsonView::Object(
            Map::empty().insert("inputTokens"@, number_json(u.input_tokens as nat)).insert(
                "outputTokens"@,
                number_json(u.output_tokens as nat),
            ).insert("cachedTokens"@, optional_number(u.cached_tokens)).insert(
                "cacheWriteTokens"@,
                optional_number(u.cache_write_tokens),
            ),
        ),
        None => JsonView::Null,
    }
}

fn json_of_usage(usage: Option<TokenUsage>) -> (r: Json)
    ensures
        r@ == usage_json(usage),
{
    match usage {
        Some(u) => {
            let mut o = ObjectBuilder::new();
            o.put_number("inputTokens", u.input_tokens);
            o.put_number("outputTokens", u.output_tokens);
            o.put("cachedTokens", number_or_null(u.cached_tokens));
            o.put("cacheWriteTokens", number_or_null(u.cache_write_tokens));
            o.finish()
        },
        None => Json::Null,
    }
}

/// A source as JSON; it has content only where some is given.
pub open spec fn source_json(s: CitationView) -> JsonView {
    let base = Map::empty().insert("url"@, JsonView::Text(s.url)).insert(
        "title"@,
        JsonView::Text(s.title),
    );
    JsonView::Object(
        match s.content {
            Some(text) => base.insert("content"@, JsonView::Text(text)),
            None => base,
        },
    )
}

fn json_of_source(s: &SourceCitation) -> (r: Json)
    ensures
        r@ == source_json(s@),
{
    let mut o = ObjectBuilder::new();
    o.put_text("url", s.url.as_str());
    o.put_text("title", s.title.as_str());
    if let Some(text) = &s.content {
        o.put_text("content", text.as_str());
    }
    o.finish()
}

fn json_of_sources(v: &Vec<SourceCitation>) -> (r: Json)
    ensures
        r@ == JsonView::Array(v.deep_view().map_values(|s: CitationView| source_json(s))),
{
    let ghost t = v.deep_view();
    let mut a = ArrayBuilder::new();
    let mut i: usize = 0;
    while i < v.len()
        invariant
            i <= v@.len(),
            t == v.deep_view(),
            a.array() == t.take(i as int).map_values(|s: CitationView| source_json(s)),
        decreases v.len() - i,
    {
        assert(t[i as int] == v@[i as int]@);
        a.push(json_of_source(&v[i]));
        assert(a.array() =~= t.take(i + 1).map_values(|s: CitationView| source_json(s)));
        i += 1;
    }
    assert(t.take(i as int) =~= t);
    a.finish()
}

/// What JSON says of a run; what it cost and how full the context is are given by their texts.
pub open spec fn outcome_in_json(o: RunOutcome, credits: Seq<char>, context: Option<Seq<char>>) -> JsonView {
    JsonView::Object(
        Map::empty().insert("result"@, JsonView::Text(o.result.final_text@)).insert(
            "stopReason"@,
            JsonView::Text(reason_label(o.result.stop_reason)),
        ).insert("rounds"@, number_json(o.result.rounds as nat)).insert(
            "costCredits"@,
            decimal_json(credits),
        ).insert("usage"@, usage_json(o.result.last_usage)).insert(
            "contextPercent"@,
            match context {
                Some(text) => decimal_json(text),
                None => JsonView::Null,
            },
        ).insert(
            "sources"@,
            JsonView::Array(
                o.result.sources.deep_view().map_values(|s: CitationView| source_json(s)),
            ),
        ).insert("changedFiles"@, texts_json(texts(o.affected_paths@))).insert(
            "commands"@,
            texts_json(texts(o.commands@)),
        ),
    )
}

/// What JSON says of a run.
pub fn outcome_json(o: &RunOutcome, credits: &str, context: Option<&str>) -> (r: Json)
    ensures
        r@ == outcome_in_json(*o, credits@, context.deep_view()),
{
    let mut b = ObjectBuilder::new();
    b.put_text("result", o.result.final_text.as_str());
    b.put_text("stopReason", stop_reason_name(&o.result.stop_reason));
    b.put_number("rounds", o.result.rounds as u64);
    b.put("costCredits", Json::Number(JsonNumber::Decimal(credits.to_owned())));
    b.put("usage", json_of_usage(o.result.last_usage));
    match context {
        Some(text) => b.put(
            "contextPercent",
            Json::Number(JsonNumber::Decimal(text.to_owned())),
        ),
        None => b.put("contextPercent", Json::Null),
    }
    b.put("sources", json_of_sources(&o.result.sources));
    b.put("changedFiles", json_of_texts(&o.affected_paths));
    b.put("commands", json_of_texts(&o.commands));
    b.finish()
}

/// What a run prints: on the output and on the side.
#[derive(Debug, PartialEq, Eq)]
pub struct Printed {
    pub output: Vec<String>,
    pub side: Vec<String>,
}

/// The line of a source.
pub open spec fn source_line(s: SourceCitation) -> Seq<char> {
    if s.title@.len() == 0 {
        "- "@ + s.url@
    } else {
        "- "@ + s.title@ + " — "@ + s.url@
    }
}

/// The lines of the first `n` sources.
pub open spec fn source_lines(sources: Seq<SourceCitation>, n: int) -> Seq<Seq<char>>
    decreases n,
{
    if n <= 0 {
        seq!["Sources:"@]
    } else {
        source_lines(sources, n - 1).push(source_line(sources[n - 1]))
    }
}

/// The lines that a run prints on the output after what the model wrote.
pub open spec fn output_lines(o: RunOutcome) -> Seq<Seq<char>> {
    let sources = o.result.sources@;
    if sources.len() == 0 {
        seq![""@]
    } else {
        seq![""@] + source_lines(sources, sources.len() as int).push(""@)
    }
}

/// The lines of the first `n` warnings.
pub open spec fn warning_lines(warnings: Seq<RunWarning>, n: int) -> Seq<Seq<char>>
    decreases n,
{
    if n <= 0 {
        Seq::empty()
    } else {
        warning_lines(warnings, n - 1).push("Warning: "@ + warnings[n - 1].message@)
    }
}

/// The lines that a run prints on the side; what it cost and how full the context is are given as
/// they are shown.
pub open spec fn side_lines(o: RunOutcome, credits: Seq<char>, context: Seq<char>) -> Seq<
    Seq<char>,
> {
    let warnings = warning_lines(o.warnings@, o.warnings@.len() as int);
    let paths = texts(o.affected_paths@);
    let changed = if paths.len() == 0 {
        warnings
    } else {
        warnings.push("Native file changes: "@ + joined(paths, ", "@))
    };
    let count = o.commands@.len();
    let ran = if count == 0 {
        changed
    } else {
        changed.push(
            "Executed "@ + decimal(count) + " command"@ + (if count == 1 {
                ""@
            } else {
                "s"@
            }) + "."@,
        )
    };
    ran.push(""@).push(
        decimal(o.result.rounds as nat) + " round(s) · "@ + credits + " credits"@ + context + " · "@
            + reason_label(o.result.stop_reason),
    )
}

fn output_of(o: &RunOutcome) -> (r: Vec<String>)
    ensures
        texts(r@) == output_lines(*o),
{
    let sources = &o.result.sources;
    let mut r = no_lines();
    push_line(&mut r, "".to_owned());
    assert(texts(r@) =~= seq![""@]);
    if sources.len() == 0 {
        return r;
    }
    push_line(&mut r, "Sources:".to_owned());
    assert(texts(r@) =~= seq![""@] + source_lines(sources@, 0));
    let mut i: usize = 0;
    while i < sources.len()
        invariant
            i <= sources@.len(),
            texts(r@) == seq![""@] + source_lines(sources@, i as int),
        decreases sources.len() - i,
    {
        let s = &sources[i];
        let line = if s.title.as_str().is_empty() {
            cat2("- ", s.url.as_str())
        } else {
            cat4("- ", s.title.as_str(), " — ", s.url.as_str())
        };
        let ghost before = source_lines(sources@, i as int);
        push_line(&mut r, line);
        assert(texts(r@) =~= seq![""@] + before.push(line@));
        i += 1;
    }
    let ghost all = source_lines(sources@, i as int);
    push_line(&mut r, "".to_owned());
    assert(texts(r@) =~= seq![""@] + all.push(""@));
    r
}

/// What a run prints after what the model wrote.
pub fn print_outcome(o: &RunOutcome, credits: &str, context: &str) -> (r: Printed)
    ensures
        texts(r.output@) == output_lines(*o),
        texts(r.side@) == side_lines(*o, credits@, context@),
{
    let output = output_of(o);
    let mut side = no_lines();
    let mut i: usize = 0;
    while i < o.warnings.len()
        invariant
            i <= o.warnings@.len(),
            texts(side@) == warning_lines(o.warnings@, i as int),
        decreases o.warnings.len() - i,
    {
        push_line(&mut side, cat2("Warning: ", o.warnings[i].message.as_str()));
        i += 1;
    }
    assert(texts(o.affected_paths@).len() == o.affected_paths@.len());
    if o.affected_paths.len() > 0 {
        push_line(
            &mut side,
            cat2("Native file changes: ", join(&o.affected_paths, ", ").as_str()),
        );
    }
    if o.commands.len() > 0 {
        let end = if o.commands.len() == 1 {
            ""
        } else {
            "s"
        };
        push_line(
            &mut side,
            cat5(
                "Executed ",
                number_text(o.commands.len() as u64).as_str(),
                " command",
                end,
                ".",
            ),
        );
    }
    push_line(&mut side, "".to_owned());
    let head = cat5(
        number_text(o.result.rounds as u64).as_str(),
        " round(s) · ",
        credits,
        " credits",
        context,
    );
    push_line(
        &mut side,
        cat3(head.as_str(), " · ", stop_reason_name(&o.result.stop_reason)),
    );
    Printed { output, side }
}

/// The number of a place, counted from one, picks the place; nothing else is picked but by such a
/// number, which may have a plus sign and white space about it.
pub proof fn numbers_pick_their_places(n: nat, count: nat, line: Seq<char>)
    ensures
        1 <= n <= count ==> picked(decimal(n), count) == Some((n - 1) as nat),
        !(1 <= n <= count) ==> picked(decimal(n), count) is None,
        picked(line, count) matches Some(i) ==> i < count && decimal_value(
            without_plus(trimmed(line)),
        ) == i + 1,
{
    decimals_read_as_their_number(n);
    let s = decimal(n);
    assert(!white_space(s[0]) && !white_space(s.last())) by {
        assert('0' <= s[0] <= '9');
        assert('0' <= s[s.len() - 1] <= '9');
    }
    assert(trimmed_start(s) == s);
    assert(trimmed_end(s) == s);
    assert(s[0] != '+');
    assert(all_digits(s)) by {
        assert forall|i: int| 0 <= i < s.len() implies is_digit(#[trigger] s[i]) by {}
    }
    values_agree(s);
    values_agree(without_plus(trimmed(line)));
}

proof fn values_agree(s: Seq<char>)
    ensures
        all_digits(s) || s.len() == 0 ==> digits_value(s) == decimal_value(s),
    decreases s.len(),
{
    if s.len() > 0 && all_digits(s) {
        let rest = s.drop_last();
        assert(is_digit(s[s.len() - 1]));
        assert forall|i: int| 0 <= i < rest.len() implies is_digit(#[trigger] rest[i]) by {
            assert(rest[i] == s[i]);
        }
        values_agree(rest);
    }
}

/// What is piped in stands behind the prompt, without the white space around it; nothing but white
/// space is left out.
pub proof fn what_is_piped_in_stands_behind(prompt: Seq<char>, piped: Seq<char>)
    ensures
        prompt.is_prefix_of(full_prompt(prompt, Some(piped))),
        full_prompt(prompt, None) == prompt,
        trimmed(piped).len() == 0 ==> full_prompt(prompt, Some(piped)) == prompt,
        trimmed(piped).len() > 0 ==> full_prompt(prompt, Some(piped)) == prompt
            + "\n\n<stdin>\n"@ + trimmed(piped) + "\n</stdin>"@,
{
    trimmed_is_empty_iff_blank(piped);
    let all = full_prompt(prompt, Some(piped));
    assert(all.take(prompt.len() as int) =~= prompt);
}

/// Only a plain yes counts, whatever its case.
pub proof fn only_a_yes_counts(line: Seq<char>)
    ensures
        says_yes(line) <==> ascii_lower(trimmed(line)) == "y"@ || ascii_lower(trimmed(line))
            == "yes"@,
        trimmed(line).len() == 0 ==> !says_yes(line),
{
    reveal_strlit("y");
    reveal_strlit("yes");
    assert(ascii_lower(trimmed(line)).len() == trimmed(line).len());
}

/// Each model has its line, in their order; where only those with tools are wanted the others are
/// left out.
pub proof fn models_have_their_lines(models: Seq<ModelSummary>, tools_only: bool)
    ensures
        model_lines(models, tools_only) == models.filter(
            |m: ModelSummary| m.supports_tools || !tools_only,
        ).map_values(|m: ModelSummary| model_line(m)),
    decreases models.len(),
{
    reveal(Seq::filter);
    let kept = |m: ModelSummary| m.supports_tools || !tools_only;
    let row = |m: ModelSummary| model_line(m);
    if models.len() == 0 {
        assert(models.filter(kept).map_values(row) =~= Seq::empty());
    } else {
        models_have_their_lines(models.drop_last(), tools_only);
        assert(models.filter(kept).map_values(row) =~= if kept(models.last()) {
            models.drop_last().filter(kept).map_values(row).push(row(models.last()))
        } else {
            models.drop_last().filter(kept).map_values(row)
        });
    }
}

/// The grants that are shown are those of the workspace, or all of them, in their order.
pub proof fn grants_of_the_workspace_are_shown(
    grants: Seq<StoredPermissionGrant>,
    all: bool,
    root: Seq<char>,
)
    ensures
        listed_grants(grants, all, root) == grants.filter(
            |g: StoredPermissionGrant| all || g.workspace_path@ == root,
        ),
    decreases grants.len(),
{
    reveal(Seq::filter);
    if grants.len() > 0 {
        grants_of_the_workspace_are_shown(grants.drop_last(), all, root);
    }
}

/// Each grant is shown on two lines, by its id, kind and value and by its workspace.
pub proof fn grants_are_shown_whole(grants: Seq<StoredPermissionGrant>, n: int, i: int)
    requires
        0 <= i < n <= grants.len(),
    ensures
        grant_lines(grants, n).len() == 2 * n,
        grant_lines(grants, n)[2 * i] == grants[i].id@ + "  "@ + padded_end(grants[i].kind@, 7)
            + " "@ + grants[i].value@,
        grant_lines(grants, n)[2 * i + 1] == "  "@ + grants[i].workspace_path@,
    decreases n,
{
    if n > 1 {
        if i < n - 1 {
            grants_are_shown_whole(grants, n - 1, i);
        } else {
            grants_are_shown_whole(grants, n - 1, 0);
        }
    } else {
        assert(grant_lines(grants, 0).len() == 0);
    }
}

/// Each session to pick from is shown under its number, with its id on the line below.
pub proof fn sessions_are_shown_under_their_numbers(sessions: Seq<LocalSession>, n: int, i: int)
    requires
        0 <= i < n <= sessions.len(),
    ensures
        choice_lines(sessions, n).len() == 2 * n + 1,
        choice_lines(sessions, n)[2 * i + 1] == "  "@ + decimal((i + 1) as nat) + ") "@
            + title_shown(sessions[i]) + " · "@ + sessions[i].model@ + " · "@ + shown_time(
            sessions[i].updated_at,
        ),
        choice_lines(sessions, n)[2 * i + 2] == "     "@ + sessions[i].id@,
    decreases n,
{
    if n > 1 {
        if i < n - 1 {
            sessions_are_shown_under_their_numbers(sessions, n - 1, i);
        } else {
            sessions_are_shown_under_their_numbers(sessions, n - 1, 0);
        }
    } else {
        assert(choice_lines(sessions, 0).len() == 1);
    }
}

/// The sources of an answer are shown below it, each on its line and in their order.
pub proof fn sources_are_shown_in_order(sources: Seq<SourceCitation>, n: int, i: int)
    requires
        0 <= i < n <= sources.len(),
    ensures
        source_lines(sources, n).len() == n + 1,
        source_lines(sources, n)[i + 1] == if sources[i].title@.len() == 0 {
            "- "@ + sources[i].url@
        } else {
            "- "@ + sources[i].title@ + " — "@ + sources[i].url@
        },
    decreases n,
{
    if n > 1 {
        if i < n - 1 {
            sources_are_shown_in_order(sources, n - 1, i);
        } else {
            sources_are_shown_in_order(sources, n - 1, 0);
        }
    } else {
        assert(source_lines(sources, 0).len() == 1);
    }
}

/// What a run hands back in JSON is what it said, why it stopped, and what it changed and ran.
pub proof fn outcomes_are_told_whole(o: RunOutcome, credits: Seq<char>, context: Option<Seq<char>>)
    ensures
        ({
            let json = outcome_in_json(o, credits, context);
            &&& member(json, "result"@) == Some(JsonView::Text(o.result.final_text@))
            &&& member(json, "stopReason"@) == Some(
                JsonView::Text(reason_label(o.result.stop_reason)),
            )
            &&& member(json, "rounds"@) == Some(number_json(o.result.rounds as nat))
            &&& member(json, "changedFiles"@) == Some(texts_json(texts(o.affected_paths@)))
            &&& member(json, "commands"@) == Some(texts_json(texts(o.commands@)))
            &&& member(json, "costCredits"@) == Some(decimal_json(credits))
        }),
{
    reveal_strlit("result");
    reveal_strlit("stopReason");
    reveal_strlit("rounds");
    reveal_strlit("costCredits");
    reveal_strlit("usage");
    reveal_strlit("contextPercent");
    reveal_strlit("sources");
    reveal_strlit("changedFiles");
    reveal_strlit("commands");
    assert("result"@.len() == 6 && "stopReason"@.len() == 10 && "rounds"@.len() == 6);
    assert("result"@[1] != "rounds"@[1]);
    assert("costCredits"@.len() == 11 && "usage"@.len() == 5 && "contextPercent"@.len() == 14);
    assert("sources"@.len() == 7 && "changedFiles"@.len() == 12 && "commands"@.len() == 8);
}

/// Each session that a scan could read counts, and of every other entry the lines say which it is
/// and what is wrong with it, in their order.
pub proof fn scans_tell_what_is_wrong(entries: Seq<SessionScanEntry>, n: int)
    requires
        0 < n <= entries.len(),
    ensures
        scan_lines(entries, n - 1).is_prefix_of(scan_lines(entries, n)),
        entries[n - 1] is Session ==> scan_lines(entries, n) == scan_lines(entries, n - 1)
            && healthy_count(entries, n) == healthy_count(entries, n - 1) + 1,
        entries[n - 1] matches SessionScanEntry::Unsupported { id, version } ==> {
            &&& scan_lines(entries, n).len() == scan_lines(entries, n - 1).len() + 1
            &&& has_text(scan_lines(entries, n).last(), id@)
            &&& has_text(scan_lines(entries, n).last(), decimal(version as nat))
            &&& healthy_count(entries, n) == healthy_count(entries, n - 1)
        },
        entries[n - 1] matches SessionScanEntry::Quarantined { id, reason, path } ==> {
            let lines = scan_lines(entries, n);
            &&& lines.len() == scan_lines(entries, n - 1).len() + 2
            &&& has_text(lines[lines.len() - 2], id@)
            &&& has_text(lines[lines.len() - 2], reason@)
            &&& has_text(lines.last(), path@)
            &&& healthy_count(entries, n) == healthy_count(entries, n - 1)
        },
{
    let lines = scan_lines(entries, n);
    match entries[n - 1] {
        SessionScanEntry::Session(_) => {},
        SessionScanEntry::Unsupported { id, version } => {
            let head = "Unsupported: "@;
            let number = decimal(version as nat);
            let line = head + id@ + " uses schema version "@ + number + "."@;
            let a = head.len() as int;
            let b = (head + id@ + " uses schema version "@).len() as int;
            assert(line.subrange(a, a + id@.len()) =~= id@);
            assert(line.subrange(b, b + number.len()) =~= number);
            assert(occurs_at(line, id@, a) && occurs_at(line, number, b));
            assert(lines.last() == line);
        },
        SessionScanEntry::Quarantined { id, reason, path } => {
            let head = "Quarantined: "@;
            let line = head + id@ + ": "@ + reason@;
            let a = head.len() as int;
            let b = (head + id@ + ": "@).len() as int;
            assert(line.subrange(a, a + id@.len()) =~= id@);
            assert(line.subrange(b, b + reason@.len()) =~= reason@);
            assert(occurs_at(line, id@, a) && occurs_at(line, reason@, b));
            assert(lines[lines.len() - 2] == line);
            let place = "  "@ + path@;
            let c = "  "@.len() as int;
            assert(place.subrange(c, c + path@.len()) =~= path@);
            assert(occurs_at(place, path@, c));
            assert(lines.last() == place);
        },
    }
}

/// An error about credits says where to get more, and one about the version says to upgrade; no
/// other error says either.
pub proof fn errors_say_what_to_do(error: Seq<char>)
    ensures
        error_hints(error).contains("Top up at the Ronin web app."@) <==> has_text(
            error,
            "insufficient_credits"@,
        ),
        error_hints(error).contains("Upgrade the Ronin CLI before running another agent task."@)
            <==> has_text(error, "cli_upgrade_required"@),
{
    reveal_strlit("Top up at the Ronin web app.");
    reveal_strlit("Upgrade the Ronin CLI before running another agent task.");
    assert("Top up at the Ronin web app."@[0] == 'T');
    assert("Upgrade the Ronin CLI before running another agent task."@[0] == 'U');
    let all = error_hints(error);
    if has_text(error, "insufficient_credits"@) {
        assert(all[0] == "Top up at the Ronin web app."@);
    }
    if has_text(error, "cli_upgrade_required"@) {
        assert(all.last() == "Upgrade the Ronin CLI before running another agent task."@);
    }
}

/// The model that was asked for counts first, then the one of the session, then the one in the
/// settings.
pub proof fn models_are_chosen_in_order(
    given: Option<Seq<char>>,
    session: Option<Seq<char>>,
    configured: Option<Seq<char>>,
)
    ensures
        given is Some ==> model_chosen(given, session, configured) == given,
        given is None && session is Some ==> model_chosen(given, session, configured) == session,
        given is None && session is None ==> model_chosen(given, session, configured) == configured,
        model_chosen(given, session, configured) is None <==> given is None && session is None
            && configured is None,
{
}

/// Nothing is wrong exactly where every part of the program is well.
pub proof fn health_means_all_is_well(c: Credentials, h: Health)
    ensures
        is_healthy(c, h) ==> can_sign_in(c) && h.api && h.balance is Ok && h.models is Ok,
        !h.api || h.balance is Err || h.models is Err || !can_sign_in(c) ==> !is_healthy(c, h),
{
}

/// What JSON says of a session is under the name of each thing.
pub proof fn sessions_are_told_under_their_names(s: LocalSession, credits: Seq<char>)
    ensures
        ({
            let json = JsonView::Object(session_in_json(s, credits));
            &&& member(json, "id"@) == Some(JsonView::Text(s.id@))
            &&& member(json, "workspace"@) == Some(JsonView::Text(s.cwd@))
            &&& member(json, "model"@) == Some(JsonView::Text(s.model@))
            &&& member(json, "state"@) == Some(JsonView::Text(state_label(s.state)))
            &&& member(json, "updatedAt"@) == Some(JsonView::Text(json_time(s.updated_at)))
            &&& member(json, "rounds"@) == Some(number_json(s.rounds as nat))
            &&& member(json, "compactionCount"@) == Some(number_json(s.compaction_count as nat))
            &&& member(json, "costCredits"@) == Some(decimal_json(credits))
        }),
{
    reveal_strlit("id");
    reveal_strlit("workspace");
    reveal_strlit("model");
    reveal_strlit("state");
    reveal_strlit("updatedAt");
    reveal_strlit("rounds");
    reveal_strlit("compactionCount");
    reveal_strlit("costCredits");
    assert("id"@.len() == 2 && "workspace"@.len() == 9 && "model"@.len() == 5);
    assert("state"@.len() == 5 && "updatedAt"@.len() == 9 && "rounds"@.len() == 6);
    assert("compactionCount"@.len() == 15 && "costCredits"@.len() == 11);
    assert("workspace"@[0] != "updatedAt"@[0] && "model"@[0] != "state"@[0]);
}

/// A session in a list is shown by its id, what it is doing and its title, then by its model and
/// cost, then by its workspace.
pub proof fn sessions_are_shown_in_three_lines(session: LocalSession, credits: Seq<char>)
    ensures
        ({
            let all = session_lines(session, credits);
            &&& all.len() == 3
            &&& begins_with(all[0], session.id@)
            &&& has_text(all[0], state_label(session.state))
            &&& finishes_with(all[0], title_shown(session))
            &&& has_text(all[1], session.model@)
            &&& has_text(all[1], credits)
            &&& finishes_with(all[2], session.cwd@)
            &&& session.title matches Some(title) ==> title_shown(session) == title@
        }),
{
    let all = session_lines(session, credits);
    let id = session.id@;
    let state = state_label(session.state);
    let title = title_shown(session);
    let a = (id + "  "@).len() as int;
    assert(all[0].subrange(0, id.len() as int) =~= id);
    assert(all[0].subrange(a, a + state.len()) =~= state);
    assert(occurs_at(all[0], state, a));
    assert(all[0].subrange(all[0].len() - title.len(), all[0].len() as int) =~= title);
    let first = "  "@ + shown_time(session.updated_at) + " · "@;
    let b = first.len() as int;
    assert(all[1].subrange(b, b + session.model@.len()) =~= session.model@);
    assert(occurs_at(all[1], session.model@, b));
    let c = all[1].len() - " credits"@.len() - credits.len();
    assert(all[1].subrange(c, c + credits.len()) =~= credits);
    assert(occurs_at(all[1], credits, c));
    let cwd = session.cwd@;
    assert(all[2].subrange(all[2].len() - cwd.len(), all[2].len() as int) =~= cwd);
}

} // verus!
