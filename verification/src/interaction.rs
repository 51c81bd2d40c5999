//! Questions to the user: what a question may be, and which answers settle it.
use crate::json::{
    integral, json_text, json_views, member, text_in, ArrayBuilder, Json, JsonView, ObjectBuilder,
};
use crate::text::{
    begins_with, cat2, cat3, cat4, count_chars, decimal, number_text, outcome, same, starts_with,
    texts, trim, trimmed,
};
use crate::schema::{
    begin_schema, bounded_text, bounded_text_schema, json_of_texts, list_of, list_schema,
    number_json, one_name, only, only_schema, switch, switch_schema, texts_json, two_names, typed,
};
use crate::tool::{define, error_json, structured_error, ToolResult};
use crate::types::{AgentToolDefinition, DefinitionView};
use vstd::prelude::*;

verus! {

/// A choice that a question offers.
#[derive(Debug, PartialEq, Eq)]
pub struct UserQuestionOption {
    pub id: String,
    pub label: String,
    pub description: String,
}

/// A question to the user.
#[derive(Debug, Clone, PartialEq, Eq)]
pub struct UserQuestion {
    pub id: String,
    pub header: String,
    pub question: String,
    pub options: Vec<UserQuestionOption>,
    pub multi_select: bool,
    pub allow_other: bool,
}

/// The answer of the user to a question.
#[derive(Debug, Clone, PartialEq, Eq)]
pub struct UserAnswer {
    pub question_id: String,
    pub selected_option_ids: Vec<String>,
    pub other_text: Option<String>,
}

/// The mathematical value of a [`UserQuestionOption`].
pub struct OptionView {
    pub id: Seq<char>,
    pub label: Seq<char>,
    pub description: Seq<char>,
}

/// The mathematical value of a [`UserQuestion`].
#[verifier::ext_equal]
pub struct QuestionView {
    pub id: Seq<char>,
    pub header: Seq<char>,
    pub question: Seq<char>,
    pub options: Seq<OptionView>,
    pub multi_select: bool,
    pub allow_other: bool,
}

/// The mathematical value of a [`UserAnswer`].
#[verifier::ext_equal]
pub struct AnswerView {
    pub question_id: Seq<char>,
    pub selected: Seq<Seq<char>>,
    pub other: Option<Seq<char>>,
}

impl View for UserQuestionOption {
    type V = OptionView;

    open spec fn view(&self) -> OptionView {
        OptionView { id: self.id@, label: self.label@, description: self.description@ }
    }
}

impl DeepView for UserQuestionOption {
    type V = OptionView;

    open spec fn deep_view(&self) -> OptionView {
        self@
    }
}

impl View for UserQuestion {
    type V = QuestionView;

    open spec fn view(&self) -> QuestionView {
        QuestionView {
            id: self.id@,
            header: self.header@,
            question: self.question@,
            options: self.options.deep_view(),
            multi_select: self.multi_select,
            allow_other: self.allow_other,
        }
    }
}

impl DeepView for UserQuestion {
    type V = QuestionView;

    open spec fn deep_view(&self) -> QuestionView {
        self@
    }
}

impl View for UserAnswer {
    type V = AnswerView;

    open spec fn view(&self) -> AnswerView {
        AnswerView {
            question_id: self.question_id@,
            selected: self.selected_option_ids.deep_view(),
            other: self.other_text.deep_view(),
        }
    }
}

impl DeepView for UserAnswer {
    type V = AnswerView;

    open spec fn deep_view(&self) -> AnswerView {
        self@
    }
}

impl Clone for UserQuestionOption {
    fn clone(&self) -> (r: Self)
        ensures
            r == *self,
    {
        UserQuestionOption {
            id: self.id.clone(),
            label: self.label.clone(),
            description: self.description.clone(),
        }
    }
}

// ---------------------------------------------------------------------------------------------
// Questions
// ---------------------------------------------------------------------------------------------

/// What is wrong with a text that must have from 1 to `max` characters.
pub open spec fn length_problem(value: Seq<char>, max: nat, name: Seq<char>) -> Option<Seq<char>> {
    if value.len() == 0 || value.len() > max {
        Some(name + " must contain 1-"@ + decimal(max) + " characters"@)
    } else {
        None
    }
}

/// Checks that a text has from 1 to `max` characters.
pub fn bounded(value: &str, max: usize, name: &str) -> (r: Result<(), String>)
    ensures
        match r {
            Ok(_) => length_problem(value@, max as nat, name@) is None,
            Err(e) => length_problem(value@, max as nat, name@) == Some(e@),
        },
{
    let len = count_chars(value);
    if len == 0 || len > max {
        Err(
            cat4(
                name,
                " must contain 1-",
                number_text(max as u64).as_str(),
                " characters",
            ),
        )
    } else {
        Ok(())
    }
}

/// The first of some problems.
pub open spec fn first_problem(problems: Seq<Option<Seq<char>>>) -> Option<Seq<char>>
    decreases problems.len(),
{
    if problems.len() == 0 {
        None
    } else if problems[0] is Some {
        problems[0]
    } else {
        first_problem(problems.skip(1))
    }
}

/// What is wrong with an option, after the options before it.
pub open spec fn option_problem(options: Seq<OptionView>, i: int, question: Seq<char>) -> Option<
    Seq<char>,
> {
    let o = options[i];
    first_problem(
        seq![
            length_problem(o.id, 64, "option id"@),
            length_problem(o.label, 80, "option label"@),
            if o.description.len() > 240 {
                Some("option description exceeds 240 characters"@)
            } else {
                None
            },
            if exists|k: int| 0 <= k < i && (#[trigger] options[k]).id == o.id {
                Some("duplicate option id in question "@ + question)
            } else {
                None
            },
        ],
    )
}

/// What is wrong with the options from `i` on.
pub open spec fn options_problem(options: Seq<OptionView>, i: int, question: Seq<char>) -> Option<
    Seq<char>,
>
    decreases options.len() - i,
{
    if i < 0 || i >= options.len() {
        None
    } else if option_problem(options, i, question) is Some {
        option_problem(options, i, question)
    } else {
        options_problem(options, i + 1, question)
    }
}

/// What is wrong with a question, after the questions before it.
pub open spec fn question_problem(questions: Seq<QuestionView>, i: int) -> Option<Seq<char>> {
    let q = questions[i];
    let own = first_problem(
        seq![
            length_problem(q.id, 64, "question id"@),
            length_problem(q.header, 40, "question header"@),
            length_problem(q.question, 500, "question text"@),
            if exists|k: int| 0 <= k < i && (#[trigger] questions[k]).id == q.id {
                Some("duplicate question id: "@ + q.id)
            } else {
                None
            },
        ],
    );
    if own is Some {
        own
    } else if q.options.len() == 0 && q.allow_other {
        None
    } else if !(2 <= q.options.len() <= 4) {
        Some("question "@ + q.id + " must contain 2-4 options"@)
    } else {
        options_problem(q.options, 0, q.id)
    }
}

/// What is wrong with the questions from `i` on.
pub open spec fn questions_problem(questions: Seq<QuestionView>, i: int) -> Option<Seq<char>>
    decreases questions.len() - i,
{
    if i < 0 || i >= questions.len() {
        None
    } else if question_problem(questions, i) is Some {
        question_problem(questions, i)
    } else {
        questions_problem(questions, i + 1)
    }
}

/// A question of a kind; nothing where there is no such kind.
pub open spec fn of_kind(question: QuestionView, kind: Option<Seq<char>>) -> Option<QuestionView> {
    match kind {
        None => Some(question),
        Some(name) => if name == "free_text"@ {
            Some(
                QuestionView {
                    options: Seq::empty(),
                    multi_select: false,
                    allow_other: true,
                    ..question
                },
            )
        } else if name == "multi_select"@ {
            Some(QuestionView { multi_select: true, ..question })
        } else if name == "single_select"@ {
            Some(QuestionView { multi_select: false, ..question })
        } else {
            None
        },
    }
}

/// The kind that a question is said to be of.
pub open spec fn kind_in(source: JsonView) -> Option<Seq<char>> {
    text_in(member(source, "kind"@))
}

/// The first `n` questions, each of the kind that its source names; nothing where a kind is not
/// known.
pub open spec fn kinds_applied(
    questions: Seq<QuestionView>,
    sources: Seq<JsonView>,
    n: int,
) -> Option<Seq<QuestionView>>
    decreases n,
{
    if n <= 0 {
        Some(Seq::empty())
    } else {
        match kinds_applied(questions, sources, n - 1) {
            None => None,
            Some(head) => {
                let kind = if n - 1 < sources.len() {
                    kind_in(sources[n - 1])
                } else {
                    None
                };
                match of_kind(questions[n - 1], kind) {
                    Some(q) => Some(head.push(q)),
                    None => None,
                }
            },
        }
    }
}

/// The items of a value that is an array.
pub open spec fn items_of(value: JsonView) -> Seq<JsonView> {
    match value {
        JsonView::Array(items) => items,
        _ => Seq::empty(),
    }
}

/// The questions that the arguments of a call ask, where `decoded` is what the value of
/// `questions` decodes to.
pub open spec fn questions_asked(
    args: JsonView,
    decoded: Result<Seq<QuestionView>, Seq<char>>,
) -> Result<Seq<QuestionView>, Seq<char>> {
    match member(args, "questions"@) {
        None => Err("questions is required"@),
        Some(raw) => match decoded {
            Err(message) => Err(message),
            Ok(questions) => match kinds_applied(questions, items_of(raw), questions.len() as int) {
                None => Err("unsupported question kind"@),
                Some(questions) => if !(1 <= questions.len() <= 3) {
                    Err("questions must contain 1-3 items"@)
                } else {
                    match questions_problem(questions, 0) {
                        Some(message) => Err(message),
                        None => Ok(questions),
                    }
                },
            },
        },
    }
}

fn check_options(options: &Vec<UserQuestionOption>, question: &str) -> (r: Option<String>)
    ensures
        r.deep_view() == options_problem(options.deep_view(), 0, question@),
{
    let ghost all = options.deep_view();
    let mut i: usize = 0;
    while i < options.len()
        invariant
            i <= options@.len(),
            all == options.deep_view(),
            options_problem(all, 0, question@) == options_problem(all, i as int, question@),
        decreases options.len() - i,
    {
        let option = &options[i];
        assert(all[i as int] == option@);
        proof {
            reveal_with_fuel(first_problem, 5);
        }
        if let Err(message) = bounded(option.id.as_str(), 64, "option id") {
            return Some(message);
        }
        if let Err(message) = bounded(option.label.as_str(), 80, "option label") {
            return Some(message);
        }
        if count_chars(option.description.as_str()) > 240 {
            return Some("option description exceeds 240 characters".to_owned());
        }
        let mut k: usize = 0;
        while k < i
            invariant
                k <= i < options@.len(),
                all == options.deep_view(),
                option == options@[i as int],
                forall|j: int| 0 <= j < k ==> (#[trigger] all[j]).id != option.id@,
                options_problem(all, 0, question@) == options_problem(all, i as int, question@),
                all[i as int] == option@,
                length_problem(option.id@, 64, "option id"@) is None,
                length_problem(option.label@, 80, "option label"@) is None,
                option.description@.len() <= 240,
            decreases i - k,
        {
            assert(all[k as int] == options@[k as int]@);
            if same(options[k].id.as_str(), option.id.as_str()) {
                proof {
                    reveal_with_fuel(first_problem, 5);
                }
                return Some(cat2("duplicate option id in question ", question));
            }
            k += 1;
        }
        assert(option_problem(all, i as int, question@) is None) by {
            reveal_with_fuel(first_problem, 5);
        }
        i += 1;
    }
    None
}

fn check_question(questions: &Vec<UserQuestion>, i: usize) -> (r: Option<String>)
    requires
        i < questions@.len(),
    ensures
        r.deep_view() == question_problem(questions.deep_view(), i as int),
{
    let ghost all = questions.deep_view();
    let question = &questions[i];
    assert(all[i as int] == question@);
    proof {
        reveal_with_fuel(first_problem, 5);
    }
    if let Err(message) = bounded(question.id.as_str(), 64, "question id") {
        return Some(message);
    }
    if let Err(message) = bounded(question.header.as_str(), 40, "question header") {
        return Some(message);
    }
    if let Err(message) = bounded(question.question.as_str(), 500, "question text") {
        return Some(message);
    }
    let mut k: usize = 0;
    while k < i
        invariant
            k <= i < questions@.len(),
            all == questions.deep_view(),
            question == questions@[i as int],
            forall|j: int| 0 <= j < k ==> (#[trigger] all[j]).id != question.id@,
            all[i as int] == question@,
            length_problem(question.id@, 64, "question id"@) is None,
            length_problem(question.header@, 40, "question header"@) is None,
            length_problem(question.question@, 500, "question text"@) is None,
        decreases i - k,
    {
        assert(all[k as int] == questions@[k as int]@);
        if same(questions[k].id.as_str(), question.id.as_str()) {
            proof {
                reveal_with_fuel(first_problem, 5);
            }
            return Some(cat2("duplicate question id: ", question.id.as_str()));
        }
        k += 1;
    }
    proof {
        reveal_with_fuel(first_problem, 5);
    }
    if question.options.len() == 0 && question.allow_other {
        return None;
    }
    if question.options.len() < 2 || question.options.len() > 4 {
        return Some(cat3("question ", question.id.as_str(), " must contain 2-4 options"));
    }
    check_options(&question.options, question.id.as_str())
}

/// What is wrong with some questions.
pub fn check_questions(questions: &Vec<UserQuestion>) -> (r: Option<String>)
    ensures
        r.deep_view() == questions_problem(questions.deep_view(), 0),
{
    let mut i: usize = 0;
    while i < questions.len()
        invariant
            i <= questions@.len(),
            questions_problem(questions.deep_view(), 0) == questions_problem(
                questions.deep_view(),
                i as int,
            ),
        decreases questions.len() - i,
    {
        let problem = check_question(questions, i);
        if problem.is_some() {
            return problem;
        }
        i += 1;
    }
    None
}

proof fn kinds_stay_unknown(
    questions: Seq<QuestionView>,
    sources: Seq<JsonView>,
    n: int,
    m: int,
)
    requires
        0 <= n <= m,
        kinds_applied(questions, sources, n) is None,
    ensures
        kinds_applied(questions, sources, m) is None,
    decreases m,
{
    if n < m {
        kinds_stay_unknown(questions, sources, n, m - 1);
    }
}

fn source_kind<'a>(sources: Option<&'a Vec<Json>>, i: usize) -> (r: Option<&'a str>)
    ensures
        r.deep_view() == match sources {
            Some(items) => if i < items@.len() {
                kind_in(items@[i as int]@)
            } else {
                None
            },
            None => None,
        },
{
    match sources {
        Some(items) => if i < items.len() {
            match items[i].get("kind") {
                Some(kind) => kind.as_str(),
                None => None,
            }
        } else {
            None
        },
        None => None,
    }
}

/// The questions that the arguments of a call ask, where `decoded` is what the value of
/// `questions` decodes to.
pub fn parse_questions(args: &Json, decoded: Result<Vec<UserQuestion>, String>) -> (r: Result<
    Vec<UserQuestion>,
    String,
>)
    ensures
        outcome(r) == questions_asked(args@, outcome(decoded)),
{
    let raw = match args.get("questions") {
        Some(raw) => raw,
        None => return Err("questions is required".to_owned()),
    };
    let mut questions = match decoded {
        Ok(questions) => questions,
        Err(message) => return Err(message),
    };
    let sources = raw.as_array();
    let ghost items = items_of(raw@);
    let ghost all = questions.deep_view();
    let mut i: usize = 0;
    assert(questions.deep_view().take(0) =~= Seq::empty());
    while i < questions.len()
        invariant
            i <= questions@.len(),
            questions@.len() == all.len(),
            forall|k: int| i <= k < all.len() ==> (#[trigger] questions@[k])@ == all[k],
            match sources {
                Some(list) => items == json_views(list@),
                None => items == Seq::<JsonView>::empty(),
            },
            kinds_applied(all, items, i as int) == Some(questions.deep_view().take(i as int)),
            member(args@, "questions"@) is Some,
            items == items_of(member(args@, "questions"@)->0),
            outcome(decoded) == Ok::<Seq<QuestionView>, Seq<char>>(all),
        decreases questions.len() - i,
    {
        let ghost before = questions.deep_view();
        let kind = source_kind(sources, i);
        assert(kind.deep_view() == if i < items.len() {
            kind_in(items[i as int])
        } else {
            None
        });
        assert(questions@[i as int]@ == all[i as int]);
        if let Some(name) = kind {
            if same(name, "free_text") {
                questions[i].options = Vec::new();
                questions[i].multi_select = false;
                questions[i].allow_other = true;
            } else if same(name, "multi_select") {
                questions[i].multi_select = true;
            } else if same(name, "single_select") {
                questions[i].multi_select = false;
            } else {
                proof {
                    kinds_stay_unknown(all, items, i + 1, all.len() as int);
                }
                return Err("unsupported question kind".to_owned());
            }
        }
        let ghost done = of_kind(all[i as int], kind.deep_view())->0;
        assert(questions@[i as int]@ =~= done);
        assert(questions.deep_view().take(i + 1) =~= before.take(i as int).push(done));
        i += 1;
    }
    assert(questions.deep_view().take(i as int) =~= questions.deep_view());
    if questions.len() < 1 || questions.len() > 3 {
        return Err("questions must contain 1-3 items".to_owned());
    }
    match check_questions(&questions) {
        Some(message) => Err(message),
        None => Ok(questions),
    }
}

// ---------------------------------------------------------------------------------------------
// Answers
// ---------------------------------------------------------------------------------------------

/// The place of the first question of an id from a place on; the number of questions where there
/// is none.
pub open spec fn question_index(questions: Seq<QuestionView>, id: Seq<char>, from: int) -> int
    decreases questions.len() - from,
{
    if from < 0 || from >= questions.len() {
        questions.len() as int
    } else if questions[from].id == id {
        from
    } else {
        question_index(questions, id, from + 1)
    }
}

/// The free text of an answer, without white space around it; nothing where it is blank.
pub open spec fn other_given(other: Option<Seq<char>>) -> Option<Seq<char>> {
    match other {
        Some(text) => if trimmed(text).len() > 0 {
            Some(trimmed(text))
        } else {
            None
        },
        None => None,
    }
}

/// Whether a text occurs twice.
pub open spec fn repeats(ids: Seq<Seq<char>>) -> bool {
    exists|i: int, j: int| 0 <= i < j < ids.len() && ids[i] == ids[j]
}

/// Whether a question offers an option.
pub open spec fn offers(question: QuestionView, id: Seq<char>) -> bool {
    exists|k: int| 0 <= k < question.options.len() && (#[trigger] question.options[k]).id == id
}

/// The number of choices of an answer.
pub open spec fn choices(answer: AnswerView) -> nat {
    answer.selected.len() + (if other_given(answer.other) is Some {
        1nat
    } else {
        0
    })
}

/// What is wrong with an answer to a question.
pub open spec fn selection_problem(question: QuestionView, answer: AnswerView) -> Option<Seq<char>> {
    let other = other_given(answer.other);
    if repeats(answer.selected) {
        Some("answer for "@ + question.id + " repeats an option"@)
    } else if exists|i: int|
        0 <= i < answer.selected.len() && !offers(question, #[trigger] answer.selected[i]) {
        Some("answer for "@ + question.id + " contains an unknown option"@)
    } else if other is Some && other->0.len() > 4000 {
        Some("answer for "@ + question.id + " exceeds 4000 characters"@)
    } else if other is Some && !question.allow_other {
        Some("question "@ + question.id + " does not allow Other"@)
    } else if choices(answer) == 0 || (!question.multi_select && choices(answer) != 1) {
        Some("question "@ + question.id + " has an invalid selection count"@)
    } else {
        None
    }
}

/// What is wrong with an answer, after the answers before it.
pub open spec fn answer_problem(
    questions: Seq<QuestionView>,
    answers: Seq<AnswerView>,
    i: int,
) -> Option<Seq<char>> {
    let answer = answers[i];
    let at = question_index(questions, answer.question_id, 0);
    if exists|k: int| 0 <= k < i && (#[trigger] answers[k]).question_id == answer.question_id {
        Some("duplicate answer for "@ + answer.question_id)
    } else if at >= questions.len() {
        Some("unknown question id: "@ + answer.question_id)
    } else {
        selection_problem(questions[at], answer)
    }
}

/// What is wrong with the answers from `i` on.
pub open spec fn answers_problem(
    questions: Seq<QuestionView>,
    answers: Seq<AnswerView>,
    i: int,
) -> Option<Seq<char>>
    decreases answers.len() - i,
{
    if i < 0 || i >= answers.len() {
        None
    } else if answer_problem(questions, answers, i) is Some {
        answer_problem(questions, answers, i)
    } else {
        answers_problem(questions, answers, i + 1)
    }
}

/// What is wrong with the answers to some questions.
pub open spec fn validation_problem(
    questions: Seq<QuestionView>,
    answers: Seq<AnswerView>,
) -> Option<Seq<char>> {
    if answers.len() != questions.len() {
        Some("one answer is required for every question"@)
    } else {
        answers_problem(questions, answers, 0)
    }
}

proof fn question_index_bounds(questions: Seq<QuestionView>, id: Seq<char>, from: int)
    requires
        0 <= from <= questions.len(),
    ensures
        from <= question_index(questions, id, from) <= questions.len(),
        question_index(questions, id, from) < questions.len() ==> questions[question_index(
            questions,
            id,
            from,
        )].id == id,
    decreases questions.len() - from,
{
    if from < questions.len() && questions[from].id != id {
        question_index_bounds(questions, id, from + 1);
    }
}

fn find_question(questions: &[UserQuestion], id: &str) -> (r: usize)
    ensures
        r == question_index(questions.deep_view(), id@, 0),
        r <= questions@.len(),
{
    let ghost all = questions.deep_view();
    let mut i: usize = 0;
    while i < questions.len()
        invariant
            i <= questions@.len(),
            all == questions.deep_view(),
            question_index(all, id@, 0) == question_index(all, id@, i as int),
        decreases questions.len() - i,
    {
        assert(all[i as int] == questions@[i as int]@);
        if same(questions[i].id.as_str(), id) {
            return i;
        }
        i += 1;
    }
    i
}

fn has_repeats(ids: &Vec<String>) -> (r: bool)
    ensures
        r == repeats(ids.deep_view()),
{
    let ghost all = ids.deep_view();
    let mut j: usize = 0;
    while j < ids.len()
        invariant
            j <= ids@.len(),
            all == ids.deep_view(),
            forall|a: int, b: int| 0 <= a < b < j ==> all[a] != all[b],
        decreases ids.len() - j,
    {
        let mut i: usize = 0;
        while i < j
            invariant
                i <= j < ids@.len(),
                all == ids.deep_view(),
                forall|a: int, b: int| 0 <= a < b < j ==> all[a] != all[b],
                forall|a: int| 0 <= a < i ==> all[a] != all[j as int],
            decreases j - i,
        {
            assert(all[i as int] == ids@[i as int]@ && all[j as int] == ids@[j as int]@);
            if same(ids[i].as_str(), ids[j].as_str()) {
                return true;
            }
            i += 1;
        }
        j += 1;
    }
    false
}

fn offers_option(question: &UserQuestion, id: &str) -> (r: bool)
    ensures
        r == offers(question@, id@),
{
    let ghost all = question@.options;
    let mut i: usize = 0;
    while i < question.options.len()
        invariant
            i <= question.options@.len(),
            all == question.options.deep_view(),
            forall|k: int| 0 <= k < i ==> (#[trigger] all[k]).id != id@,
        decreases question.options.len() - i,
    {
        assert(all[i as int] == question.options@[i as int]@);
        if same(question.options[i].id.as_str(), id) {
            assert(question@.options[i as int].id == id@);
            return true;
        }
        i += 1;
    }
    false
}

fn has_unknown_option(question: &UserQuestion, ids: &Vec<String>) -> (r: bool)
    ensures
        r == exists|i: int|
            0 <= i < ids.deep_view().len() && !offers(question@, #[trigger] ids.deep_view()[i]),
{
    let ghost all = ids.deep_view();
    let mut i: usize = 0;
    while i < ids.len()
        invariant
            i <= ids@.len(),
            all == ids.deep_view(),
            forall|k: int| 0 <= k < i ==> offers(question@, #[trigger] all[k]),
        decreases ids.len() - i,
    {
        assert(all[i as int] == ids@[i as int]@);
        if !offers_option(question, ids[i].as_str()) {
            return true;
        }
        i += 1;
    }
    false
}

fn check_selection(question: &UserQuestion, answer: &UserAnswer) -> (r: Option<String>)
    ensures
        r.deep_view() == selection_problem(question@, answer@),
{
    if has_repeats(&answer.selected_option_ids) {
        return Some(cat3("answer for ", question.id.as_str(), " repeats an option"));
    }
    if has_unknown_option(question, &answer.selected_option_ids) {
        return Some(cat3("answer for ", question.id.as_str(), " contains an unknown option"));
    }
    let mut other_len: usize = 0;
    if let Some(text) = &answer.other_text {
        other_len = count_chars(trim(text.as_str()).as_str());
    }
    if other_len > 4000 {
        return Some(cat3("answer for ", question.id.as_str(), " exceeds 4000 characters"));
    }
    if other_len > 0 && !question.allow_other {
        return Some(cat3("question ", question.id.as_str(), " does not allow Other"));
    }
    let selected = answer.selected_option_ids.len();
    let none = selected == 0 && other_len == 0;
    let one = (selected == 1 && other_len == 0) || (selected == 0 && other_len > 0);
    if none || (!question.multi_select && !one) {
        return Some(
            cat3("question ", question.id.as_str(), " has an invalid selection count"),
        );
    }
    None
}

fn check_answer(questions: &[UserQuestion], answers: &[UserAnswer], i: usize) -> (r: Option<String>)
    requires
        i < answers@.len(),
    ensures
        r.deep_view() == answer_problem(questions.deep_view(), answers.deep_view(), i as int),
{
    let ghost all = answers.deep_view();
    let answer = &answers[i];
    assert(all[i as int] == answer@);
    let mut k: usize = 0;
    while k < i
        invariant
            k <= i < answers@.len(),
            all == answers.deep_view(),
            answer == answers@[i as int],
            all[i as int] == answer@,
            forall|j: int| 0 <= j < k ==> (#[trigger] all[j]).question_id != answer.question_id@,
        decreases i - k,
    {
        assert(all[k as int] == answers@[k as int]@);
        if same(answers[k].question_id.as_str(), answer.question_id.as_str()) {
            return Some(cat2("duplicate answer for ", answer.question_id.as_str()));
        }
        k += 1;
    }
    let at = find_question(questions, answer.question_id.as_str());
    if at >= questions.len() {
        return Some(cat2("unknown question id: ", answer.question_id.as_str()));
    }
    assert(questions.deep_view()[at as int] == questions@[at as int]@);
    check_selection(&questions[at], answer)
}

/// Checks that some answers settle some questions.
pub fn validate_answers(questions: &[UserQuestion], answers: &[UserAnswer]) -> (r: Result<
    (),
    String,
>)
    ensures
        match r {
            Ok(_) => validation_problem(questions.deep_view(), answers.deep_view()) is None,
            Err(message) => validation_problem(questions.deep_view(), answers.deep_view()) == Some(
                message@,
            ),
        },
{
    if answers.len() != questions.len() {
        return Err("one answer is required for every question".to_owned());
    }
    let mut i: usize = 0;
    while i < answers.len()
        invariant
            i <= answers@.len(),
            answers@.len() == questions@.len(),
            answers_problem(questions.deep_view(), answers.deep_view(), 0) == answers_problem(
                questions.deep_view(),
                answers.deep_view(),
                i as int,
            ),
        decreases answers.len() - i,
    {
        if let Some(message) = check_answer(questions, answers, i) {
            return Err(message);
        }
        i += 1;
    }
    Ok(())
}

// ---------------------------------------------------------------------------------------------
// The tool
// ---------------------------------------------------------------------------------------------

/// Stands in for the user where there is nobody to ask.
pub struct UnavailableQuestioner;

impl UnavailableQuestioner {
    /// Always fails.
    pub fn ask(&self) -> (r: Result<Vec<UserAnswer>, String>)
        ensures
            outcome(r) == Err::<Seq<AnswerView>, Seq<char>>(
                "interactive_input_unavailable: ask_user requires the interactive TUI; continue without it or explain what input is needed"@,
            ),
    {
        Err(
            "interactive_input_unavailable: ask_user requires the interactive TUI; continue without it or explain what input is needed".to_owned(),
        )
    }
}

/// The schema of an option.
pub open spec fn option_schema() -> JsonView {
    only(
        Map::empty().insert("id"@, bounded_text(64)).insert("label"@, bounded_text(80)).insert(
            "description"@,
            JsonView::Object(typed("string"@).insert("maxLength"@, number_json(240))),
        ),
        seq!["id"@, "label"@],
    )
}

/// The schema of what kind of question is asked.
pub open spec fn kind_schema() -> JsonView {
    JsonView::Object(
        typed("string"@).insert(
            "enum"@,
            texts_json(seq!["single_select"@, "multi_select"@, "free_text"@]),
        ),
    )
}

/// The schema of a question.
pub open spec fn question_schema() -> JsonView {
    only(
        Map::empty().insert("id"@, bounded_text(64)).insert("header"@, bounded_text(40)).insert(
            "question"@,
            bounded_text(500),
        ).insert("kind"@, kind_schema()).insert("options"@, list_of(0, 4, option_schema())).insert(
            "multiSelect"@,
            switch(),
        ).insert("allowOther"@, switch()),
        seq!["id"@, "header"@, "question"@, "options"@],
    )
}

/// How `ask_user` is described to the model.
pub open spec fn ask_user_described() -> DefinitionView {
    DefinitionView {
        name: "ask_user"@,
        description: "Ask the user 1-3 concise single-select, multi-select, or free-text questions when their decision is required. Call this tool alone and wait for the answers before requesting any other tool."@,
        parameters: only(
            Map::empty().insert("questions"@, list_of(1, 3, question_schema())),
            seq!["questions"@],
        ),
    }
}

fn describe_option() -> (r: Json)
    ensures
        r@ == option_schema(),
{
    let mut properties = ObjectBuilder::new();
    properties.put("id", bounded_text_schema(64));
    properties.put("label", bounded_text_schema(80));
    let mut description = begin_schema("string");
    description.put_number("maxLength", 240);
    properties.put("description", description.finish());
    only_schema(properties, &two_names("id", "label"))
}

fn describe_kind() -> (r: Json)
    ensures
        r@ == kind_schema(),
{
    let mut kinds = two_names("single_select", "multi_select");
    let ghost before = texts(kinds@);
    kinds.push("free_text".to_owned());
    assert(texts(kinds@) =~= before.push("free_text"@));
    assert(texts(kinds@) =~= seq!["single_select"@, "multi_select"@, "free_text"@]);
    let mut kind = begin_schema("string");
    kind.put("enum", json_of_texts(&kinds));
    kind.finish()
}

fn describe_question() -> (r: Json)
    ensures
        r@ == question_schema(),
{
    let mut properties = ObjectBuilder::new();
    properties.put("id", bounded_text_schema(64));
    properties.put("header", bounded_text_schema(40));
    properties.put("question", bounded_text_schema(500));
    properties.put("kind", describe_kind());
    properties.put("options", list_schema(0, 4, describe_option()));
    properties.put("multiSelect", switch_schema());
    properties.put("allowOther", switch_schema());
    let mut required = two_names("id", "header");
    let ghost before = texts(required@);
    required.push("question".to_owned());
    required.push("options".to_owned());
    assert(texts(required@) =~= before.push("question"@).push("options"@));
    assert(texts(required@) =~= seq!["id"@, "header"@, "question"@, "options"@]);
    only_schema(properties, &required)
}

/// How `ask_user` is described to the model.
pub fn ask_user_definition() -> (r: AgentToolDefinition)
    ensures
        r@ == ask_user_described(),
{
    let mut properties = ObjectBuilder::new();
    properties.put("questions", list_schema(1, 3, describe_question()));
    define(
        "ask_user",
        "Ask the user 1-3 concise single-select, multi-select, or free-text questions when their decision is required. Call this tool alone and wait for the answers before requesting any other tool.",
        only_schema(properties, &one_name("questions")),
    )
}

/// What came of asking the user.
#[derive(Debug, PartialEq, Eq)]
pub enum Reply {
    Cancelled,
    Failed(String),
    Answered(Vec<UserAnswer>),
}

/// The mathematical value of a [`Reply`].
pub enum ReplyView {
    Cancelled,
    Failed(Seq<char>),
    Answered(Seq<AnswerView>),
}

impl View for Reply {
    type V = ReplyView;

    open spec fn view(&self) -> ReplyView {
        match self {
            Reply::Cancelled => ReplyView::Cancelled,
            Reply::Failed(message) => ReplyView::Failed(message@),
            Reply::Answered(answers) => ReplyView::Answered(answers.deep_view()),
        }
    }
}

/// The JSON of some ids.
pub open spec fn ids_json(ids: Seq<Seq<char>>) -> Seq<JsonView> {
    ids.map_values(|id: Seq<char>| JsonView::Text(id))
}

/// The JSON of an answer; it has free text only where the user gave some.
pub open spec fn answer_json(answer: AnswerView) -> JsonView {
    let entries = Map::empty().insert("questionId"@, JsonView::Text(answer.question_id)).insert(
        "selectedOptionIds"@,
        JsonView::Array(ids_json(answer.selected)),
    );
    JsonView::Object(
        match answer.other {
            Some(text) => entries.insert("otherText"@, JsonView::Text(text)),
            None => entries,
        },
    )
}

/// The JSON of some answers.
pub open spec fn answers_json(answers: Seq<AnswerView>) -> JsonView {
    JsonView::Object(
        Map::empty().insert(
            "answers"@,
            JsonView::Array(answers.map_values(|a: AnswerView| answer_json(a))),
        ),
    )
}

/// The text that the model gets for a reply to questions, and whether it is an error.
pub open spec fn reply_text(questions: Seq<QuestionView>, reply: ReplyView) -> (Seq<char>, bool) {
    match reply {
        ReplyView::Cancelled => (
            json_text(error_json("cancelled"@, "The user cancelled the question."@)),
            true,
        ),
        ReplyView::Failed(message) => (
            json_text(
                error_json(
                    if begins_with(message, "interactive_input_unavailable:"@) {
                        "interactive_input_unavailable"@
                    } else {
                        "question_failed"@
                    },
                    message,
                ),
            ),
            true,
        ),
        ReplyView::Answered(answers) => match validation_problem(questions, answers) {
            Some(message) => (json_text(error_json("invalid_answers"@, message)), true),
            None => (json_text(answers_json(answers)), false),
        },
    }
}

fn json_of_answer(answer: &UserAnswer) -> (r: Json)
    ensures
        r@ == answer_json(answer@),
        integral(r),
{
    let mut ids = ArrayBuilder::new();
    let ghost all = answer@.selected;
    let mut i: usize = 0;
    while i < answer.selected_option_ids.len()
        invariant
            i <= answer.selected_option_ids@.len(),
            all == answer.selected_option_ids.deep_view(),
            ids.array() == ids_json(all.take(i as int)),
            ids.integral(),
        decreases answer.selected_option_ids.len() - i,
    {
        assert(all[i as int] == answer.selected_option_ids@[i as int]@);
        ids.push_text(answer.selected_option_ids[i].as_str());
        assert(ids.array() =~= ids_json(all.take(i + 1)));
        i += 1;
    }
    assert(all.take(i as int) =~= all);
    let mut entries = ObjectBuilder::new();
    entries.put_text("questionId", answer.question_id.as_str());
    entries.put("selectedOptionIds", ids.finish());
    if let Some(text) = &answer.other_text {
        entries.put_text("otherText", text.as_str());
    }
    entries.finish()
}

/// The text of some answers.
pub fn answers_text(answers: &Vec<UserAnswer>) -> (r: String)
    ensures
        r@ == json_text(answers_json(answers.deep_view())),
{
    let ghost all = answers.deep_view();
    let mut list = ArrayBuilder::new();
    let mut i: usize = 0;
    while i < answers.len()
        invariant
            i <= answers@.len(),
            all == answers.deep_view(),
            list.array() == all.take(i as int).map_values(|a: AnswerView| answer_json(a)),
            list.integral(),
        decreases answers.len() - i,
    {
        assert(all[i as int] == answers@[i as int]@);
        list.push(json_of_answer(&answers[i]));
        assert(list.array() =~= all.take(i + 1).map_values(|a: AnswerView| answer_json(a)));
        i += 1;
    }
    assert(all.take(i as int) =~= all);
    let mut entries = ObjectBuilder::new();
    entries.put("answers", list.finish());
    entries.finish().to_text()
}

/// What the model gets for a reply to questions.
pub fn ask_user_result(questions: &Vec<UserQuestion>, reply: Reply) -> (r: ToolResult)
    ensures
        (r.result@, r.is_error) == reply_text(questions.deep_view(), reply@),
        r.metadata.is_default(),
{
    match reply {
        Reply::Cancelled => structured_error("cancelled", "The user cancelled the question."),
        Reply::Failed(message) => if starts_with(
            message.as_str(),
            "interactive_input_unavailable:",
        ) {
            structured_error("interactive_input_unavailable", message.as_str())
        } else {
            structured_error("question_failed", message.as_str())
        },
        Reply::Answered(answers) => match validate_answers(
            questions.as_slice(),
            answers.as_slice(),
        ) {
            Err(message) => structured_error("invalid_answers", message.as_str()),
            Ok(_) => ToolResult::ok(answers_text(&answers)),
        },
    }
}

/// What the model gets for arguments that ask no questions.
pub fn invalid_questions(message: &str) -> (r: ToolResult)
    ensures
        r.result@ == json_text(error_json("invalid_questions"@, message@)),
        r.is_error,
        r.metadata.is_default(),
{
    structured_error("invalid_questions", message)
}

// ---------------------------------------------------------------------------------------------
// Laws
// ---------------------------------------------------------------------------------------------

/// The ids of questions.
pub open spec fn question_ids(questions: Seq<QuestionView>) -> Seq<Seq<char>> {
    questions.map_values(|q: QuestionView| q.id)
}

/// The ids of the questions that answers are for.
pub open spec fn answered_ids(answers: Seq<AnswerView>) -> Seq<Seq<char>> {
    answers.map_values(|a: AnswerView| a.question_id)
}

proof fn no_problem_at(questions: Seq<QuestionView>, answers: Seq<AnswerView>, i: int, k: int)
    requires
        0 <= i <= k < answers.len(),
        answers_problem(questions, answers, i) is None,
    ensures
        answer_problem(questions, answers, k) is None,
    decreases k - i,
{
    if i < k {
        no_problem_at(questions, answers, i + 1, k);
    }
}

/// Answers that are accepted answer each question exactly once.
pub proof fn accepted_answers_settle_every_question(
    questions: Seq<QuestionView>,
    answers: Seq<AnswerView>,
)
    requires
        question_ids(questions).no_duplicates(),
        validation_problem(questions, answers) is None,
    ensures
        answered_ids(answers).no_duplicates(),
        answered_ids(answers).to_set() == question_ids(questions).to_set(),
{
    let asked = question_ids(questions);
    let given = answered_ids(answers);
    assert forall|i: int, j: int| 0 <= i < j < given.len() implies given[i] != given[j] by {
        no_problem_at(questions, answers, 0, j);
        assert(answers[i].question_id == given[i]);
    }
    assert(given.no_duplicates());
    assert forall|id: Seq<char>| given.to_set().contains(id) implies asked.to_set().contains(id) by {
        let k = choose|k: int| 0 <= k < given.len() && given[k] == id;
        no_problem_at(questions, answers, 0, k);
        question_index_bounds(questions, id, 0);
        let at = question_index(questions, id, 0);
        assert(asked[at] == id);
    }
    given.unique_seq_to_set();
    asked.unique_seq_to_set();
    vstd::set_lib::lemma_subset_equality(given.to_set(), asked.to_set());
}

/// Questions that are accepted have distinct ids.
pub proof fn accepted_questions_have_distinct_ids(questions: Seq<QuestionView>)
    requires
        questions_problem(questions, 0) is None,
    ensures
        question_ids(questions).no_duplicates(),
{
    let ids = question_ids(questions);
    assert forall|i: int, j: int| 0 <= i < j < ids.len() implies ids[i] != ids[j] by {
        no_question_problem_at(questions, 0, j);
        reveal_with_fuel(first_problem, 5);
        assert(questions[i].id == ids[i]);
    }
}

/// Among questions with distinct ids, the first of an id is the one that has it.
pub proof fn first_question_of_its_id(questions: Seq<QuestionView>, i: int)
    requires
        0 <= i < questions.len(),
        question_ids(questions).no_duplicates(),
    ensures
        question_index(questions, questions[i].id, 0) == i,
{
    let id = questions[i].id;
    question_index_bounds(questions, id, 0);
    question_index_is_first(questions, id, 0, i);
    let at = question_index(questions, id, 0);
    assert(question_ids(questions)[at] == id && question_ids(questions)[i] == id);
}

proof fn question_index_is_first(questions: Seq<QuestionView>, id: Seq<char>, from: int, i: int)
    requires
        0 <= from <= i < questions.len(),
        questions[i].id == id,
    ensures
        question_index(questions, id, from) <= i,
    decreases i - from,
{
    if questions[from].id != id {
        question_index_is_first(questions, id, from + 1, i);
    }
}

/// Questions that are accepted are accepted one by one.
pub proof fn accepted_question_at(questions: Seq<QuestionView>, i: int)
    requires
        0 <= i < questions.len(),
        questions_problem(questions, 0) is None,
    ensures
        question_problem(questions, i) is None,
{
    no_question_problem_at(questions, 0, i);
}

/// Answers that are accepted one by one are accepted.
pub proof fn no_problem_in_any_answer(
    questions: Seq<QuestionView>,
    answers: Seq<AnswerView>,
    from: int,
)
    requires
        0 <= from <= answers.len(),
        forall|i: int|
            from <= i < answers.len() ==> answer_problem(questions, answers, i) is None,
    ensures
        answers_problem(questions, answers, from) is None,
    decreases answers.len() - from,
{
    if from < answers.len() {
        no_problem_in_any_answer(questions, answers, from + 1);
    }
}

proof fn no_question_problem_at(questions: Seq<QuestionView>, i: int, k: int)
    requires
        0 <= i <= k < questions.len(),
        questions_problem(questions, i) is None,
    ensures
        question_problem(questions, k) is None,
    decreases k - i,
{
    if i < k {
        no_question_problem_at(questions, i + 1, k);
    }
}

/// Whether an id is that of an option of a question.
pub open spec fn is_option_of(question: QuestionView, id: Seq<char>) -> bool {
    question.options.map_values(|o: OptionView| o.id).contains(id)
}

/// Whether an answer fits its question: it chooses options that are offered, none twice; it says
/// something else only where that is allowed and at not too great a length; and it makes one
/// choice, or at least one where several may be made.
pub open spec fn fits_question(question: QuestionView, answer: AnswerView) -> bool {
    let said = match answer.other {
        Some(text) => trimmed(text).len(),
        None => 0,
    };
    &&& answer.selected.no_duplicates()
    &&& forall|i: int|
        0 <= i < answer.selected.len() ==> is_option_of(question, #[trigger] answer.selected[i])
    &&& said > 0 ==> question.allow_other && said <= 4000
    &&& answer.selected.len() > 0 || said > 0
    &&& !question.multi_select ==> answer.selected.len() + (if said > 0 {
        1nat
    } else {
        0
    }) == 1
}

/// A selection is in order exactly where the answer fits the question.
pub proof fn selections_are_in_order_where_they_fit(question: QuestionView, answer: AnswerView)
    ensures
        selection_problem(question, answer) is None <==> fits_question(question, answer),
{
    let ids = answer.selected;
    if repeats(ids) {
        let (i, j) = choose|i: int, j: int| 0 <= i < j < ids.len() && ids[i] == ids[j];
        assert(!ids.no_duplicates());
    } else {
        assert forall|i: int, j: int| 0 <= i < ids.len() && 0 <= j < ids.len() && i != j implies
            ids[i] != ids[j] by {
            if i < j {
                assert(!(ids[i] == ids[j]));
            } else {
                assert(!(ids[j] == ids[i]));
            }
        }
        assert(ids.no_duplicates());
    }
    assert forall|i: int| 0 <= i < ids.len() implies offers(question, #[trigger] ids[i])
        == is_option_of(question, ids[i]) by {
        let all = question.options.map_values(|o: OptionView| o.id);
        if offers(question, ids[i]) {
            let k = choose|k: int|
                0 <= k < question.options.len() && (#[trigger] question.options[k]).id == ids[i];
            assert(all[k] == ids[i]);
        }
        if all.contains(ids[i]) {
            let k = choose|k: int| 0 <= k < all.len() && all[k] == ids[i];
            assert(question.options[k].id == ids[i]);
        }
    }
}

proof fn no_answers_problem(questions: Seq<QuestionView>, answers: Seq<AnswerView>, i: int)
    requires
        0 <= i <= answers.len(),
    ensures
        answers_problem(questions, answers, i) is None <==> forall|k: int|
            i <= k < answers.len() ==> #[trigger] answer_problem(questions, answers, k) is None,
    decreases answers.len() - i,
{
    if i < answers.len() {
        no_answers_problem(questions, answers, i + 1);
        if answers_problem(questions, answers, i) is None {
            assert forall|k: int| i <= k < answers.len() implies #[trigger] answer_problem(
                questions,
                answers,
                k,
            ) is None by {
                if k > i {
                    assert(answers_problem(questions, answers, i + 1) is None);
                }
            }
        }
    }
}

/// Answers are accepted exactly where there is one for each question, each is to another question
/// that was asked, and each fits its question.
pub proof fn answers_are_accepted_where_they_fit(
    questions: Seq<QuestionView>,
    answers: Seq<AnswerView>,
)
    ensures
        validation_problem(questions, answers) is None <==> {
            &&& answers.len() == questions.len()
            &&& forall|i: int, j: int|
                0 <= i < j < answers.len() ==> (#[trigger] answers[i]).question_id
                    != (#[trigger] answers[j]).question_id
            &&& forall|i: int|
                0 <= i < answers.len() ==> {
                    let at = question_index(questions, (#[trigger] answers[i]).question_id, 0);
                    at < questions.len() && questions[at].id == answers[i].question_id
                        && fits_question(questions[at], answers[i])
                }
        },
{
    no_answers_problem(questions, answers, 0);
    assert forall|i: int| 0 <= i < answers.len() implies (#[trigger] answer_problem(
        questions,
        answers,
        i,
    ) is None) == {
        let at = question_index(questions, answers[i].question_id, 0);
        &&& forall|k: int|
            0 <= k < i ==> (#[trigger] answers[k]).question_id != answers[i].question_id
        &&& at < questions.len() && questions[at].id == answers[i].question_id && fits_question(
            questions[at],
            answers[i],
        )
    } by {
        let at = question_index(questions, answers[i].question_id, 0);
        question_index_bounds(questions, answers[i].question_id, 0);
        if at < questions.len() {
            selections_are_in_order_where_they_fit(questions[at], answers[i]);
        }
    }
    if validation_problem(questions, answers) is None {
        assert forall|i: int, j: int| 0 <= i < j < answers.len() implies (
        #[trigger] answers[i]).question_id != (#[trigger] answers[j]).question_id by {
            assert(answer_problem(questions, answers, j) is None);
        }
        assert forall|i: int| 0 <= i < answers.len() implies {
            let at = question_index(questions, (#[trigger] answers[i]).question_id, 0);
            at < questions.len() && questions[at].id == answers[i].question_id && fits_question(
                questions[at],
                answers[i],
            )
        } by {
            assert(answer_problem(questions, answers, i) is None);
        }
    }
}

/// Answers that are accepted are told to the model as they were given: for each its question, what
/// was chosen, and what else was said.
pub proof fn answers_are_told_as_given(
    questions: Seq<QuestionView>,
    answers: Seq<AnswerView>,
    i: int,
)
    requires
        0 <= i < answers.len(),
    ensures
        validation_problem(questions, answers) is None ==> reply_text(
            questions,
            ReplyView::Answered(answers),
        ) == (json_text(answers_json(answers)), false),
        validation_problem(questions, answers) is Some ==> reply_text(
            questions,
            ReplyView::Answered(answers),
        ).1,
        reply_text(questions, ReplyView::Cancelled).1,
        ({
            let told = member(answers_json(answers), "answers"@);
            &&& told matches Some(JsonView::Array(all)) && all.len() == answers.len() && {
                let a = all[i];
                &&& member(a, "questionId"@) == Some(JsonView::Text(answers[i].question_id))
                &&& member(a, "selectedOptionIds"@) matches Some(JsonView::Array(ids)) && ids.len()
                    == answers[i].selected.len() && forall|k: int|
                    0 <= k < ids.len() ==> #[trigger] ids[k] == JsonView::Text(
                        answers[i].selected[k],
                    )
                &&& text_in(member(a, "otherText"@)) == answers[i].other
            }
        }),
{
    reveal_strlit("questionId");
    reveal_strlit("selectedOptionIds");
    reveal_strlit("otherText");
    assert("questionId"@.len() == 10 && "selectedOptionIds"@.len() == 17 && "otherText"@.len()
        == 9);
}

/// A kind makes a question what it says: free text has no options, and a selection is of one or of
/// several. A question without a kind stays as it is, and one of another kind is refused.
pub proof fn kinds_make_questions(question: QuestionView, name: Seq<char>)
    ensures
        of_kind(question, None) == Some(question),
        of_kind(question, Some("free_text"@)) matches Some(q) && q.options.len() == 0
            && !q.multi_select && q.allow_other && q.question == question.question && q.id
            == question.id,
        of_kind(question, Some("multi_select"@)) matches Some(q) && q.multi_select && q.options
            == question.options && q.allow_other == question.allow_other && q.id == question.id,
        of_kind(question, Some("single_select"@)) matches Some(q) && !q.multi_select && q.options
            == question.options && q.allow_other == question.allow_other && q.id == question.id,
        of_kind(question, Some(name)) is Some ==> name == "free_text"@ || name == "multi_select"@
            || name == "single_select"@,
{
    reveal_strlit("free_text");
    reveal_strlit("multi_select");
    reveal_strlit("single_select");
    assert("free_text"@.len() == 9 && "multi_select"@.len() == 12 && "single_select"@.len() == 13);
}

proof fn kinds_are_applied_to_each(
    questions: Seq<QuestionView>,
    sources: Seq<JsonView>,
    n: int,
    i: int,
)
    requires
        0 <= i < n <= questions.len(),
        kinds_applied(questions, sources, n) is Some,
    ensures
        kinds_applied(questions, sources, n)->0.len() == n,
        of_kind(
            questions[i],
            if i < sources.len() {
                kind_in(sources[i])
            } else {
                None
            },
        ) == Some(kinds_applied(questions, sources, n)->0[i]),
    decreases n,
{
    if i < n - 1 {
        kinds_are_applied_to_each(questions, sources, n - 1, i);
    } else if n > 1 {
        kinds_are_applied_to_each(questions, sources, n - 1, 0);
    }
}

/// The questions that are asked are those that were given, in their order and each of the kind that
/// was given with it; there are one to three of them, each in order.
pub proof fn questions_are_asked_as_given(
    args: JsonView,
    given: Seq<QuestionView>,
    i: int,
)
    requires
        0 <= i < given.len(),
        questions_asked(args, Ok(given)) is Ok,
    ensures
        ({
            let asked = questions_asked(args, Ok(given))->Ok_0;
            let sources = items_of(member(args, "questions"@)->0);
            &&& 1 <= asked.len() <= 3
            &&& asked.len() == given.len()
            &&& of_kind(
                given[i],
                if i < sources.len() {
                    text_in(member(sources[i], "kind"@))
                } else {
                    None
                },
            ) == Some(asked[i])
            &&& questions_problem(asked, 0) is None
        }),
{
    kinds_are_applied_to_each(
        given,
        items_of(member(args, "questions"@)->0),
        given.len() as int,
        i,
    );
}

/// Whether an option is in order: its texts have the lengths that are allowed, and no option before
/// it has its id.
pub open spec fn option_in_order(options: Seq<OptionView>, i: int) -> bool {
    &&& 1 <= options[i].id.len() <= 64
    &&& 1 <= options[i].label.len() <= 80
    &&& options[i].description.len() <= 240
    &&& forall|k: int| 0 <= k < i ==> (#[trigger] options[k]).id != options[i].id
}

/// Whether a question is in order: its texts have the lengths that are allowed, no question before
/// it has its id, and it offers two to four options in order, or none where only free text is
/// wanted.
pub open spec fn question_in_order(questions: Seq<QuestionView>, i: int) -> bool {
    let q = questions[i];
    &&& 1 <= q.id.len() <= 64
    &&& 1 <= q.header.len() <= 40
    &&& 1 <= q.question.len() <= 500
    &&& forall|k: int| 0 <= k < i ==> (#[trigger] questions[k]).id != q.id
    &&& q.options.len() == 0 && q.allow_other || 2 <= q.options.len() <= 4 && forall|k: int|
        0 <= k < q.options.len() ==> #[trigger] option_in_order(q.options, k)
}

/// Questions are accepted exactly where each of them is in order.
pub proof fn questions_are_accepted_in_order(questions: Seq<QuestionView>)
    ensures
        questions_problem(questions, 0) is None <==> forall|i: int|
            0 <= i < questions.len() ==> #[trigger] question_in_order(questions, i),
{
    questions_from(questions, 0);
}

proof fn questions_from(questions: Seq<QuestionView>, from: int)
    requires
        0 <= from <= questions.len(),
    ensures
        questions_problem(questions, from) is None <==> forall|i: int|
            from <= i < questions.len() ==> #[trigger] question_in_order(questions, i),
    decreases questions.len() - from,
{
    if from < questions.len() {
        questions_from(questions, from + 1);
        one_question(questions, from);
        if questions_problem(questions, from) is None {
            assert forall|i: int| from <= i < questions.len() implies #[trigger] question_in_order(
                questions,
                i,
            ) by {
                if i > from {
                    assert(from + 1 <= i);
                }
            }
        } else {
            assert(!question_in_order(questions, from) || questions_problem(questions, from + 1)
                is Some);
        }
    }
}

proof fn one_question(questions: Seq<QuestionView>, i: int)
    requires
        0 <= i < questions.len(),
    ensures
        question_problem(questions, i) is None <==> question_in_order(questions, i),
{
    let q = questions[i];
    reveal_with_fuel(first_problem, 5);
    options_from(q.options, 0, q.id);
    let repeated = exists|k: int| 0 <= k < i && (#[trigger] questions[k]).id == q.id;
    assert(repeated <==> !(forall|k: int| 0 <= k < i ==> (#[trigger] questions[k]).id != q.id));
    let problems = seq![
        length_problem(q.id, 64, "question id"@),
        length_problem(q.header, 40, "question header"@),
        length_problem(q.question, 500, "question text"@),
        if repeated {
            Some("duplicate question id: "@ + q.id)
        } else {
            None
        },
    ];
    four_problems(problems);
}

proof fn options_from(options: Seq<OptionView>, from: int, question: Seq<char>)
    requires
        0 <= from <= options.len(),
    ensures
        options_problem(options, from, question) is None <==> forall|k: int|
            from <= k < options.len() ==> #[trigger] option_in_order(options, k),
    decreases options.len() - from,
{
    if from < options.len() {
        options_from(options, from + 1, question);
        let o = options[from];
        reveal_with_fuel(first_problem, 5);
        four_problems(
            seq![
                length_problem(o.id, 64, "option id"@),
                length_problem(o.label, 80, "option label"@),
                if o.description.len() > 240 {
                    Some("option description exceeds 240 characters"@)
                } else {
                    None
                },
                if exists|k: int| 0 <= k < from && (#[trigger] options[k]).id == o.id {
                    Some("duplicate option id in question "@ + question)
                } else {
                    None
                },
            ],
        );
        assert(option_problem(options, from, question) is None <==> option_in_order(options, from));
        if options_problem(options, from, question) is None {
            assert forall|k: int| from <= k < options.len() implies #[trigger] option_in_order(
                options,
                k,
            ) by {
                if k > from {
                    assert(from + 1 <= k);
                }
            }
        }
    }
}

proof fn four_problems(problems: Seq<Option<Seq<char>>>)
    requires
        problems.len() == 4,
    ensures
        first_problem(problems) is None <==> problems[0] is None && problems[1] is None
            && problems[2] is None && problems[3] is None,
{
    let a = problems.skip(1);
    let b = a.skip(1);
    let c = b.skip(1);
    assert(a[0] == problems[1] && b[0] == problems[2] && c[0] == problems[3]);
    assert(first_problem(c.skip(1)) is None);
    assert(first_problem(c) is None <==> c[0] is None);
    assert(first_problem(b) is None <==> b[0] is None && c[0] is None);
    assert(first_problem(a) is None <==> a[0] is None && b[0] is None && c[0] is None);
}

/// Questions that are not answered are told to the model as an error that says why, with the
/// message that came.
pub proof fn failed_questions_say_why(
    questions: Seq<QuestionView>,
    message: Seq<char>,
    answers: Seq<AnswerView>,
)
    ensures
        exists|told: JsonView|
            reply_text(questions, ReplyView::Failed(message)) == (#[trigger] json_text(told), true)
                && member(told, "error"@) is Some && member(member(told, "error"@)->0, "message"@)
                == Some(JsonView::Text(message)),
        validation_problem(questions, answers) is Some ==> exists|told: JsonView|
            reply_text(questions, ReplyView::Answered(answers)) == (#[trigger] json_text(told), true)
                && member(told, "error"@) is Some && member(member(told, "error"@)->0, "message"@)
                == Some(JsonView::Text(validation_problem(questions, answers)->0)),
{
    let code = if begins_with(message, "interactive_input_unavailable:"@) {
        "interactive_input_unavailable"@
    } else {
        "question_failed"@
    };
    reveal_strlit("code");
    reveal_strlit("message");
    assert("code"@.len() != "message"@.len());
    let told = error_json(code, message);
    assert(reply_text(questions, ReplyView::Failed(message)) == (json_text(told), true));
    if validation_problem(questions, answers) is Some {
        let invalid = error_json("invalid_answers"@, validation_problem(questions, answers)->0);
        assert(reply_text(questions, ReplyView::Answered(answers)) == (json_text(invalid), true));
    }
}

} // verus!
