//! The panel in which the user answers questions.
use crate::interaction::{
    answer_problem, first_problem, offers, option_problem, options_problem, question_problem,
    questions_problem, repeats, selection_problem, validation_problem, AnswerView, OptionView,
    QuestionView, UserAnswer, UserQuestion,
};
use crate::keys::Key;
use crate::text::{blank, chars_of, is_blank, same, text_of, texts, trim, trimmed};
use vstd::prelude::*;

verus! {

/// An answer while it is given.
#[derive(Debug, PartialEq, Eq)]
pub struct AnswerDraft {
    /// The ids of the options that are selected, each once.
    pub selected: Vec<String>,
    pub other: String,
}

/// The mathematical value of an [`AnswerDraft`].
#[verifier::ext_equal]
pub struct DraftView {
    pub selected: Set<Seq<char>>,
    pub other: Seq<char>,
}

impl View for AnswerDraft {
    type V = DraftView;

    open spec fn view(&self) -> DraftView {
        DraftView { selected: texts(self.selected@).to_set(), other: self.other@ }
    }
}

impl DeepView for AnswerDraft {
    type V = DraftView;

    open spec fn deep_view(&self) -> DraftView {
        self@
    }
}

/// The panel: the questions, the one that is shown, and the answers while they are given.
#[derive(Debug, PartialEq, Eq)]
pub struct QuestionPrompt {
    pub questions: Vec<UserQuestion>,
    pub index: usize,
    pub cursor: usize,
    pub editing_other: bool,
    pub drafts: Vec<AnswerDraft>,
}

/// The mathematical value of a [`QuestionPrompt`].
#[verifier::ext_equal]
pub struct PromptView {
    pub questions: Seq<QuestionView>,
    pub index: int,
    pub cursor: int,
    pub editing_other: bool,
    pub drafts: Seq<DraftView>,
}

impl View for QuestionPrompt {
    type V = PromptView;

    open spec fn view(&self) -> PromptView {
        PromptView {
            questions: self.questions.deep_view(),
            index: self.index as int,
            cursor: self.cursor as int,
            editing_other: self.editing_other,
            drafts: self.drafts.deep_view(),
        }
    }
}

impl PromptView {
    /// The question that is shown.
    pub open spec fn question(self) -> QuestionView {
        self.questions[self.index]
    }

    /// The answer to the question that is shown.
    pub open spec fn draft(self) -> DraftView {
        self.drafts[self.index]
    }

    /// The number of choices of the question that is shown.
    pub open spec fn option_count(self) -> int {
        self.question().options.len() as int + if self.question().allow_other {
            1int
        } else {
            0
        }
    }

    /// The panel with another answer to the question that is shown.
    pub open spec fn with_draft(self, draft: DraftView) -> PromptView {
        PromptView { drafts: self.drafts.update(self.index, draft), ..self }
    }
}

/// Whether an answer was given.
pub open spec fn has_answer(draft: DraftView) -> bool {
    draft.selected.len() > 0 || !blank(draft.other)
}

/// A panel that has just opened.
pub open spec fn opened(questions: Seq<QuestionView>) -> PromptView {
    PromptView {
        questions,
        index: 0,
        cursor: 0,
        editing_other: false,
        drafts: Seq::new(
            questions.len(),
            |i: int| DraftView { selected: Set::empty(), other: Seq::empty() },
        ),
    }
}

/// Opens the line for free text: where only one choice may be made it takes back the others.
pub open spec fn other_opened(m: PromptView) -> PromptView {
    let draft = if m.question().multi_select {
        m.draft()
    } else {
        DraftView { selected: Set::empty(), ..m.draft() }
    };
    PromptView { editing_other: true, ..m.with_draft(draft) }
}

/// The panel after a choice was made: the last one is free text where it is allowed.
pub open spec fn chosen(m: PromptView, i: int) -> PromptView {
    let options = m.question().options;
    if i < 0 || i >= m.option_count() {
        m
    } else if i == options.len() {
        other_opened(PromptView { cursor: i, ..m })
    } else {
        let id = options[i].id;
        let selected = m.draft().selected;
        let draft = if !m.question().multi_select {
            DraftView { selected: Set::empty().insert(id), other: Seq::empty() }
        } else if selected.contains(id) {
            DraftView { selected: selected.remove(id), ..m.draft() }
        } else {
            DraftView { selected: selected.insert(id), ..m.draft() }
        };
        PromptView { cursor: i, ..m }.with_draft(draft)
    }
}

/// The panel after the answer to the question that is shown was confirmed, and whether all
/// questions are answered.
pub open spec fn confirmed(m: PromptView) -> (PromptView, bool) {
    if !has_answer(m.draft()) {
        (m, false)
    } else if m.index + 1 == m.questions.len() {
        (m, true)
    } else {
        (PromptView { index: m.index + 1, cursor: 0, editing_other: false, ..m }, false)
    }
}

/// The panel after a key while free text is typed.
pub open spec fn typed(m: PromptView, key: Key, ctrl: bool) -> (PromptView, bool) {
    let other = m.draft().other;
    match key {
        Key::Enter => if blank(other) {
            (m, false)
        } else {
            confirmed(PromptView { editing_other: false, ..m })
        },
        Key::Backspace => (
            m.with_draft(
                DraftView {
                    other: if other.len() > 0 {
                        other.drop_last()
                    } else {
                        other
                    },
                    ..m.draft()
                },
            ),
            false,
        ),
        Key::Char(c) => if ctrl {
            (m, false)
        } else {
            (m.with_draft(DraftView { other: other.push(c), ..m.draft() }), false)
        },
        _ => (m, false),
    }
}

/// The panel after a key, and whether all questions are answered.
pub open spec fn keyed(m: PromptView, key: Key, ctrl: bool) -> (PromptView, bool) {
    if m.editing_other {
        typed(m, key, ctrl)
    } else if key == Key::Up || key == Key::Char('k') {
        (
            PromptView {
                cursor: if m.cursor > 0 {
                    m.cursor - 1
                } else {
                    0
                },
                ..m
            },
            false,
        )
    } else if key == Key::Down || key == Key::Char('j') {
        let last = if m.option_count() > 0 {
            m.option_count() - 1
        } else {
            0
        };
        (
            PromptView {
                cursor: if m.cursor < last {
                    m.cursor + 1
                } else {
                    last
                },
                ..m
            },
            false,
        )
    } else if key matches Key::Char(c) && '1' <= c <= '5' {
        (chosen(m, key->Char_0 as int - '1' as int), false)
    } else if key == Key::Char(' ') {
        (chosen(m, m.cursor), false)
    } else if key == Key::Enter {
        if m.cursor == m.question().options.len() && m.question().allow_other && blank(
            m.draft().other,
        ) {
            (other_opened(m), false)
        } else {
            confirmed(m)
        }
    } else {
        (m, false)
    }
}

/// The ids of the first `n` options that are selected.
pub open spec fn selected_ids(options: Seq<OptionView>, selected: Set<Seq<char>>, n: int) -> Seq<
    Seq<char>,
>
    decreases n,
{
    if n <= 0 {
        Seq::empty()
    } else {
        let before = selected_ids(options, selected, n - 1);
        if selected.contains(options[n - 1].id) {
            before.push(options[n - 1].id)
        } else {
            before
        }
    }
}

/// An answer to a question.
pub open spec fn answer_of(question: QuestionView, draft: DraftView) -> AnswerView {
    AnswerView {
        question_id: question.id,
        selected: selected_ids(question.options, draft.selected, question.options.len() as int),
        other: if blank(draft.other) {
            None
        } else {
            Some(trimmed(draft.other))
        },
    }
}

/// The answers to the questions of a panel, in the order of the options.
pub open spec fn answers_given(m: PromptView) -> Seq<AnswerView> {
    Seq::new(m.questions.len(), |i: int| answer_of(m.questions[i], m.drafts[i]))
}

proof fn contains_push(s: Seq<Seq<char>>, a: Seq<char>, x: Seq<char>)
    ensures
        s.push(a).contains(x) <==> s.contains(x) || x == a,
{
    let t = s.push(a);
    if t.contains(x) {
        let q = choose|q: int| 0 <= q < t.len() && #[trigger] t[q] == x;
        if q < s.len() {
            assert(s[q] == x);
        }
    }
    if s.contains(x) {
        let q = choose|q: int| 0 <= q < s.len() && #[trigger] s[q] == x;
        assert(t[q] == x);
    }
    if x == a {
        assert(t[s.len() as int] == x);
    }
}

impl QuestionPrompt {
    /// What holds of the panel at all times.
    pub open spec fn wf(self) -> bool {
        &&& self.index < self.questions@.len()
        &&& self.drafts@.len() == self.questions@.len()
        &&& forall|i: int|
            0 <= i < self.questions@.len() ==> (#[trigger] self.questions@[i]).options@.len()
                < usize::MAX
        &&& forall|i: int|
            0 <= i < self.drafts@.len() ==> texts(
                (#[trigger] self.drafts@[i]).selected@,
            ).no_duplicates()
    }

    /// Opens the panel for some questions.
    pub fn new(questions: Vec<UserQuestion>) -> (r: Self)
        requires
            questions@.len() > 0,
            forall|i: int|
                0 <= i < questions@.len() ==> (#[trigger] questions@[i]).options@.len() < usize::MAX,
        ensures
            r.wf(),
            r.questions == questions,
            r@ == opened(questions.deep_view()),
    {
        let mut drafts: Vec<AnswerDraft> = Vec::new();
        let mut i: usize = 0;
        while i < questions.len()
            invariant
                i <= questions@.len(),
                drafts@.len() == i,
                forall|k: int|
                    0 <= k < i ==> (#[trigger] drafts@[k]).selected@.len() == 0
                        && drafts@[k].other@.len() == 0,
            decreases questions.len() - i,
        {
            drafts.push(AnswerDraft { selected: Vec::new(), other: String::new() });
            i += 1;
        }
        let r = QuestionPrompt { questions, index: 0, cursor: 0, editing_other: false, drafts };
        proof {
            let expected = opened(questions.deep_view());
            assert forall|k: int| 0 <= k < r.drafts@.len() implies #[trigger] r@.drafts[k]
                == expected.drafts[k] by {
                assert(texts(r.drafts@[k].selected@) =~= Seq::empty());
                assert(r.drafts@[k]@.selected =~= Set::empty());
                assert(r.drafts@[k]@.other =~= Seq::empty());
            }
            assert(r@.drafts =~= expected.drafts);
        }
        r
    }

    /// The question that is shown.
    pub fn question(&self) -> (r: &UserQuestion)
        requires
            self.wf(),
        ensures
            r@ == self@.question(),
            *r == self.questions@[self.index as int],
    {
        assert(self@.questions[self.index as int] == self.questions@[self.index as int]@);
        &self.questions[self.index]
    }

    /// The number of choices of the question that is shown.
    pub fn option_count(&self) -> (r: usize)
        requires
            self.wf(),
        ensures
            r == self@.option_count(),
    {
        let question = self.question();
        if question.allow_other {
            question.options.len() + 1
        } else {
            question.options.len()
        }
    }

    /// Whether the question that is shown was answered.
    pub fn has_answer(&self) -> (r: bool)
        requires
            self.wf(),
        ensures
            r == has_answer(self@.draft()),
    {
        let draft = &self.drafts[self.index];
        assert(self@.drafts[self.index as int] == draft@);
        proof {
            let t = texts(draft.selected@);
            t.unique_seq_to_set();
            assert(t.len() == draft.selected@.len());
        }
        draft.selected.len() > 0 || !is_blank(draft.other.as_str())
    }

    fn is_selected(selected: &Vec<String>, id: &str) -> (r: Option<usize>)
        ensures
            match r {
                Some(i) => i < selected@.len() && texts(selected@)[i as int] == id@,
                None => !texts(selected@).contains(id@),
            },
    {
        let mut i: usize = 0;
        while i < selected.len()
            invariant
                i <= selected@.len(),
                forall|k: int| 0 <= k < i ==> texts(selected@)[k] != id@,
            decreases selected.len() - i,
        {
            assert(texts(selected@)[i as int] == selected@[i as int]@);
            if same(selected[i].as_str(), id) {
                return Some(i);
            }
            i += 1;
        }
        None
    }

    /// The answers.
    pub fn answers(&self) -> (r: Vec<UserAnswer>)
        requires
            self.wf(),
        ensures
            r.deep_view() == answers_given(self@),
    {
        let ghost m = self@;
        let mut r: Vec<UserAnswer> = Vec::new();
        let mut i: usize = 0;
        while i < self.questions.len()
            invariant
                i <= self.questions@.len(),
                self.drafts@.len() == self.questions@.len(),
                m == self@,
                r@.len() == i,
                forall|k: int| 0 <= k < i ==> (#[trigger] r@[k])@ == answers_given(m)[k],
            decreases self.questions.len() - i,
        {
            let question = &self.questions[i];
            let draft = &self.drafts[i];
            assert(m.questions[i as int] == question@);
            assert(m.drafts[i as int] == draft@);
            let ghost options = question@.options;
            let mut ids: Vec<String> = Vec::new();
            let mut k: usize = 0;
            assert(ids.deep_view() =~= Seq::empty());
            while k < question.options.len()
                invariant
                    k <= question.options@.len(),
                    options == question.options.deep_view(),
                    ids.deep_view() == selected_ids(options, draft@.selected, k as int),
                decreases question.options.len() - k,
            {
                assert(options[k as int] == question.options@[k as int]@);
                let id = &question.options[k].id;
                let found = Self::is_selected(&draft.selected, id.as_str());
                proof {
                    if let Some(at) = found {
                        assert(texts(draft.selected@).contains(id@));
                    }
                }
                if found.is_some() {
                    let ghost before = ids.deep_view();
                    ids.push(id.clone());
                    assert(ids.deep_view() =~= before.push(id@));
                }
                k += 1;
            }
            let other_text = if is_blank(draft.other.as_str()) {
                None
            } else {
                Some(trim(draft.other.as_str()))
            };
            let answer = UserAnswer {
                question_id: question.id.clone(),
                selected_option_ids: ids,
                other_text,
            };
            assert(answer@ =~= answer_of(question@, draft@));
            r.push(answer);
            i += 1;
        }
        assert(r.deep_view() =~= answers_given(m));
        r
    }

    fn set_draft(&mut self, draft: AnswerDraft)
        requires
            old(self).wf(),
            texts(draft.selected@).no_duplicates(),
        ensures
            final(self).wf(),
            final(self).questions == old(self).questions,
            final(self)@ == old(self)@.with_draft(draft@),
    {
        let ghost before = self@;
        let at = self.index;
        self.drafts[at] = draft;
        assert(self@.drafts =~= before.drafts.update(before.index, draft@));
    }

    fn open_other(&mut self)
        requires
            old(self).wf(),
        ensures
            final(self).wf(),
            final(self).questions == old(self).questions,
            final(self)@ == other_opened(old(self)@),
    {
        assert(self@.draft() == self.drafts@[self.index as int]@);
        if !self.question().multi_select {
            let draft = AnswerDraft {
                selected: Vec::new(),
                other: self.drafts[self.index].other.clone(),
            };
            assert(texts(draft.selected@) =~= Seq::empty());
            assert(draft@.selected =~= Set::empty());
            self.set_draft(draft);
        } else {
            assert(self@.with_draft(self@.draft()) =~= self@);
        }
        self.editing_other = true;
    }

    /// Makes a choice.
    pub fn choose_question_option(&mut self, i: usize)
        requires
            old(self).wf(),
        ensures
            final(self).wf(),
            final(self).questions == old(self).questions,
            final(self)@ == chosen(old(self)@, i as int),
    {
        if i >= self.option_count() {
            return ;
        }
        let options_len = self.question().options.len();
        let multi_select = self.question().multi_select;
        self.cursor = i;
        if i == options_len {
            self.open_other();
            return ;
        }
        assert(self@.draft() == self.drafts@[self.index as int]@);
        assert(self@.question().options[i as int]
            == self.questions@[self.index as int].options@[i as int]@);
        let id = self.question().options[i].id.clone();
        let ghost before = self@;
        if !multi_select {
            let mut selected: Vec<String> = Vec::new();
            selected.push(id);
            let draft = AnswerDraft { selected, other: String::new() };
            proof {
                assert(texts(draft.selected@) =~= seq![id@]);
                assert(draft@.selected =~= Set::empty().insert(id@)) by {
                    assert(texts(draft.selected@)[0] == id@);
                }
                assert(draft@.other =~= Seq::empty());
            }
            self.set_draft(draft);
            return ;
        }
        let old_draft = &self.drafts[self.index];
        let ghost t = texts(old_draft.selected@);
        let mut selected: Vec<String> = Vec::new();
        let found = Self::is_selected(&old_draft.selected, id.as_str());
        let mut k: usize = 0;
        while k < old_draft.selected.len()
            invariant
                k <= old_draft.selected@.len(),
                t == texts(old_draft.selected@),
                t.no_duplicates(),
                texts(selected@).no_duplicates(),
                forall|s: Seq<char>| #[trigger]
                    texts(selected@).contains(s) <==> t.take(k as int).contains(s) && s != id@,
            decreases old_draft.selected.len() - k,
        {
            let ghost now = texts(selected@);
            let ghost item = old_draft.selected@[k as int]@;
            assert(t[k as int] == item);
            assert(t.take(k + 1) =~= t.take(k as int).push(item));
            assert forall|s: Seq<char>| #[trigger] t.take(k + 1).contains(s) <==> t.take(
                k as int,
            ).contains(s) || s == item by {
                contains_push(t.take(k as int), item, s);
            }
            if !same(old_draft.selected[k].as_str(), id.as_str()) {
                selected.push(old_draft.selected[k].clone());
                proof {
                    let after = texts(selected@);
                    assert(after =~= now.push(item));
                    assert(!now.contains(item)) by {
                        if t.take(k as int).contains(item) {
                            let head = t.take(k as int);
                            let q = choose|q: int| 0 <= q < head.len() && #[trigger] head[q] == item;
                            assert(t[q] == t[k as int]);
                        }
                    }
                    assert forall|s: Seq<char>| #[trigger] after.contains(s) <==> now.contains(s)
                        || s == item by {
                        contains_push(now, item, s);
                    }
                }
            }
            k += 1;
        }
        assert(t.take(k as int) =~= t);
        proof {
            if let Some(at) = found {
                assert(t.contains(id@));
            }
        }
        let ghost kept = texts(selected@);
        if found.is_none() {
            selected.push(id);
            proof {
                let after = texts(selected@);
                assert(after =~= kept.push(id@));
                assert(!kept.contains(id@));
                assert(after.no_duplicates()) by {
                    assert forall|i: int, j: int|
                        0 <= i < after.len() && 0 <= j < after.len() && i != j implies after[i]
                        != after[j] by {
                        if i == kept.len() {
                            assert(kept[j] == after[j]);
                            assert(kept.contains(kept[j]));
                        } else if j == kept.len() {
                            assert(kept[i] == after[i]);
                            assert(kept.contains(kept[i]));
                        }
                    }
                }
                assert forall|s: Seq<char>| #[trigger] after.contains(s) <==> kept.contains(s) || s
                    == id@ by {
                    contains_push(kept, id@, s);
                }
            }
        }
        let other = old_draft.other.clone();
        let draft = AnswerDraft { selected, other };
        proof {
            if found is Some {
                assert(draft@.selected =~= before.draft().selected.remove(id@));
            } else {
                assert(draft@.selected =~= before.draft().selected.insert(id@));
            }
        }
        self.set_draft(draft);
    }

    fn confirm(&mut self) -> (r: bool)
        requires
            old(self).wf(),
        ensures
            final(self).wf(),
            final(self).questions == old(self).questions,
            (final(self)@, r) == confirmed(old(self)@),
    {
        if !self.has_answer() {
            return false;
        }
        if self.index == self.questions.len() - 1 {
            return true;
        }
        self.index = self.index + 1;
        self.cursor = 0;
        self.editing_other = false;
        false
    }

    fn set_other(&mut self, other: String)
        requires
            old(self).wf(),
        ensures
            final(self).wf(),
            final(self).questions == old(self).questions,
            final(self)@ == old(self)@.with_draft(
                DraftView { other: other@, ..old(self)@.draft() },
            ),
    {
        let ghost before = self@;
        let at = self.index;
        assert(self@.draft() == self.drafts@[at as int]@);
        self.drafts[at].other = other;
        assert(self.drafts@[at as int]@ =~= DraftView { other: other@, ..before.draft() });
        assert(self@.drafts =~= before.drafts.update(
            at as int,
            DraftView { other: other@, ..before.draft() },
        ));
    }

    fn type_key(&mut self, key: Key, ctrl: bool) -> (r: bool)
        requires
            old(self).wf(),
        ensures
            final(self).wf(),
            final(self).questions == old(self).questions,
            (final(self)@, r) == typed(old(self)@, key, ctrl),
    {
        assert(self@.draft() == self.drafts@[self.index as int]@);
        match key {
            Key::Enter => {
                if is_blank(self.drafts[self.index].other.as_str()) {
                    return false;
                }
                self.editing_other = false;
                self.confirm()
            },
            Key::Backspace => {
                let v = chars_of(self.drafts[self.index].other.as_str());
                let n: usize = if v.len() > 0 {
                    v.len() - 1
                } else {
                    0
                };
                let other = text_of(&v, 0, n);
                assert(v@.len() > 0 ==> other@ =~= v@.drop_last());
                assert(v@.len() == 0 ==> other@ =~= v@);
                self.set_other(other);
                false
            },
            Key::Char(c) => {
                if !ctrl {
                    let mut other = self.drafts[self.index].other.clone();
                    other.push(c);
                    self.set_other(other);
                }
                false
            },
            _ => false,
        }
    }

    /// Takes a key; says whether all questions are answered.
    pub fn handle_question_key(&mut self, key: Key, ctrl: bool) -> (r: bool)
        requires
            old(self).wf(),
        ensures
            final(self).wf(),
            final(self).questions == old(self).questions,
            (final(self)@, r) == keyed(old(self)@, key, ctrl),
    {
        if self.editing_other {
            return self.type_key(key, ctrl);
        }
        match key {
            Key::Up | Key::Char('k') => {
                if self.cursor > 0 {
                    self.cursor = self.cursor - 1;
                }
                false
            },
            Key::Down | Key::Char('j') => {
                let count = self.option_count();
                let last: usize = if count > 0 {
                    count - 1
                } else {
                    0
                };
                if self.cursor < last {
                    self.cursor = self.cursor + 1;
                } else {
                    self.cursor = last;
                }
                false
            },
            Key::Char(' ') => {
                let at = self.cursor;
                self.choose_question_option(at);
                false
            },
            Key::Char(c) => {
                if '1' <= c && c <= '5' {
                    let i: u32 = c as u32 - 49;
                    self.choose_question_option(i as usize);
                }
                false
            },
            Key::Enter => {
                assert(self@.draft() == self.drafts@[self.index as int]@);
                if self.cursor == self.question().options.len() && self.question().allow_other
                    && is_blank(self.drafts[self.index].other.as_str()) {
                    self.open_other();
                    return false;
                }
                self.confirm()
            },
            _ => false,
        }
    }
}

// ---------------------------------------------------------------------------------------------
// Laws
// ---------------------------------------------------------------------------------------------

/// Whether a question offers all of some options.
pub open spec fn offers_all(question: QuestionView, selected: Set<Seq<char>>) -> bool {
    forall|id: Seq<char>| #[trigger] selected.contains(id) ==> offers(question, id)
}

/// Whether an answer is one that a question may have while it is given: its options are offered, it
/// has free text only where that is allowed, and no more than one choice where only one may be made.
pub open spec fn draft_fits(question: QuestionView, draft: DraftView) -> bool {
    &&& draft.selected.finite()
    &&& offers_all(question, draft.selected)
    &&& !question.allow_other ==> blank(draft.other)
    &&& !question.multi_select ==> {
        &&& forall|a: Seq<char>, b: Seq<char>|
            draft.selected.contains(a) && draft.selected.contains(b) ==> a == b
        &&& draft.selected.len() == 0 || blank(draft.other)
    }
}

/// What holds of a panel whatever keys were pressed: every answer fits its question, and the
/// questions before the one that is shown are answered.
pub open spec fn panel_fits(m: PromptView) -> bool {
    &&& 0 <= m.index < m.questions.len()
    &&& m.drafts.len() == m.questions.len()
    &&& 0 <= m.cursor
    &&& forall|i: int| 0 <= i < m.drafts.len() ==> draft_fits(m.questions[i], #[trigger] m.drafts[i])
    &&& forall|i: int| 0 <= i < m.index ==> has_answer(#[trigger] m.drafts[i])
    &&& m.editing_other ==> m.question().allow_other
    &&& m.editing_other && !m.question().multi_select ==> m.draft().selected.len() == 0
}

/// A panel that has just opened fits.
pub proof fn opened_panels_fit(questions: Seq<QuestionView>)
    requires
        questions.len() > 0,
    ensures
        panel_fits(opened(questions)),
{
}

proof fn chosen_fits(m: PromptView, i: int)
    requires
        panel_fits(m),
        !m.editing_other,
    ensures
        panel_fits(chosen(m, i)),
{
    let after = chosen(m, i);
    let q = m.question();
    let d = m.draft();
    assert(draft_fits(q, d));
    if 0 <= i < m.option_count() {
        if i < q.options.len() {
            let id = q.options[i].id;
            assert(offers(q, id));
            let none: Set<Seq<char>> = Set::empty();
            assert forall|a: Seq<char>| #[trigger] none.insert(id).contains(a) implies offers(q, a) by {}
            assert(draft_fits(q, after.drafts[m.index]));
        } else {
            assert(draft_fits(q, after.drafts[m.index]));
        }
        assert forall|k: int| 0 <= k < after.drafts.len() implies draft_fits(
            after.questions[k],
            #[trigger] after.drafts[k],
        ) by {
            if k != m.index {
                assert(after.drafts[k] == m.drafts[k]);
            }
        }
        assert forall|k: int| 0 <= k < after.index implies has_answer(#[trigger] after.drafts[k]) by {
            assert(after.drafts[k] == m.drafts[k]);
        }
    }
}

/// A panel that fits still fits after any key.
pub proof fn panels_keep_fitting(m: PromptView, key: Key, ctrl: bool)
    requires
        panel_fits(m),
    ensures
        panel_fits(keyed(m, key, ctrl).0),
{
    let after = keyed(m, key, ctrl).0;
    let q = m.question();
    let d = m.draft();
    assert(draft_fits(q, d));
    if m.editing_other {
        assert forall|k: int| 0 <= k < after.drafts.len() implies draft_fits(
            after.questions[k],
            #[trigger] after.drafts[k],
        ) by {
            if k != m.index {
                assert(after.drafts[k] == m.drafts[k]);
            }
        }
        assert forall|k: int| 0 <= k < after.index implies has_answer(#[trigger] after.drafts[k]) by {
            if k < m.index {
                assert(after.drafts[k] == m.drafts[k]);
            }
        }
    } else if key matches Key::Char(c) && '1' <= c <= '5' {
        if key != Key::Char('k') && key != Key::Char('j') {
            chosen_fits(m, key->Char_0 as int - '1' as int);
        }
    } else if key == Key::Char(' ') {
        chosen_fits(m, m.cursor);
    } else if key == Key::Enter {
        assert forall|k: int| 0 <= k < after.drafts.len() implies draft_fits(
            after.questions[k],
            #[trigger] after.drafts[k],
        ) by {
            if k != m.index {
                assert(after.drafts[k] == m.drafts[k]);
            }
        }
        assert forall|k: int| 0 <= k < after.index implies has_answer(#[trigger] after.drafts[k]) by {
            if k < m.index {
                assert(after.drafts[k] == m.drafts[k]);
            }
        }
    }
}

proof fn selected_ids_are_selected(
    options: Seq<OptionView>,
    selected: Set<Seq<char>>,
    n: int,
    i: int,
)
    requires
        0 <= n <= options.len(),
        0 <= i < selected_ids(options, selected, n).len(),
    ensures
        selected.contains(selected_ids(options, selected, n)[i]),
        exists|k: int|
            0 <= k < n && (#[trigger] options[k]).id == selected_ids(options, selected, n)[i],
    decreases n,
{
    if n > 0 {
        let before = selected_ids(options, selected, n - 1);
        let all = selected_ids(options, selected, n);
        if i < before.len() {
            selected_ids_are_selected(options, selected, n - 1, i);
            assert(all[i] == before[i]);
            let k = choose|k: int| 0 <= k < n - 1 && (#[trigger] options[k]).id == before[i];
            assert(options[k].id == all[i]);
        } else {
            assert(options[n - 1].id == all[i]);
        }
    }
}

/// No two options have the same id.
pub open spec fn distinct_options(options: Seq<OptionView>) -> bool {
    forall|i: int, j: int| 0 <= i < j < options.len() ==> options[i].id != options[j].id
}

proof fn selected_ids_do_not_repeat(options: Seq<OptionView>, selected: Set<Seq<char>>, n: int)
    requires
        0 <= n <= options.len(),
        distinct_options(options),
    ensures
        !repeats(selected_ids(options, selected, n)),
    decreases n,
{
    if n > 0 {
        selected_ids_do_not_repeat(options, selected, n - 1);
        let before = selected_ids(options, selected, n - 1);
        let all = selected_ids(options, selected, n);
        assert forall|i: int, j: int| 0 <= i < j < all.len() implies all[i] != all[j] by {
            if j < before.len() {
                assert(all[i] == before[i] && all[j] == before[j]);
            } else {
                assert(all[i] == before[i]);
                selected_ids_are_selected(options, selected, n - 1, i);
                let k = choose|k: int| 0 <= k < n - 1 && (#[trigger] options[k]).id == before[i];
                assert(options[k].id != options[n - 1].id);
            }
        }
    }
}

proof fn selected_ids_hold(options: Seq<OptionView>, selected: Set<Seq<char>>, n: int, k: int)
    requires
        0 <= k < n <= options.len(),
        selected.contains(options[k].id),
    ensures
        selected_ids(options, selected, n).len() > 0,
    decreases n,
{
    if k < n - 1 {
        selected_ids_hold(options, selected, n - 1, k);
    }
}

proof fn accepted_options_are_distinct(question: QuestionView, i: int)
    requires
        options_problem(question.options, i, question.id) is None,
        0 <= i <= question.options.len(),
    ensures
        forall|k: int|
            i <= k < question.options.len() ==> option_problem(
                question.options,
                k,
                question.id,
            ) is None,
    decreases question.options.len() - i,
{
    if i < question.options.len() {
        accepted_options_are_distinct(question, i + 1);
    }
}

proof fn accepted_questions_have_distinct_options(questions: Seq<QuestionView>, i: int)
    requires
        0 <= i < questions.len(),
        question_problem(questions, i) is None,
    ensures
        distinct_options(questions[i].options),
{
    let q = questions[i];
    reveal_with_fuel(first_problem, 5);
    if !(q.options.len() == 0 && q.allow_other) {
        accepted_options_are_distinct(q, 0);
        assert forall|a: int, b: int| 0 <= a < b < q.options.len() implies q.options[a].id
            != q.options[b].id by {
            assert(option_problem(q.options, b, q.id) is None);
        }
    }
}

proof fn answer_is_accepted(question: QuestionView, draft: DraftView)
    requires
        distinct_options(question.options),
        draft_fits(question, draft),
        has_answer(draft),
        trimmed(draft.other).len() <= 4000,
    ensures
        selection_problem(question, answer_of(question, draft)) is None,
{
    let n = question.options.len() as int;
    let answer = answer_of(question, draft);
    let ids = answer.selected;
    selected_ids_do_not_repeat(question.options, draft.selected, n);
    assert forall|i: int| 0 <= i < ids.len() implies offers(question, #[trigger] ids[i]) by {
        selected_ids_are_selected(question.options, draft.selected, n, i);
        let k = choose|k: int| 0 <= k < n && (#[trigger] question.options[k]).id == ids[i];
        assert(question.options[k].id == ids[i]);
    }
    crate::text::trimmed_is_trimmed(draft.other);
    crate::text::trimmed_is_empty_iff_blank(draft.other);
    if draft.selected.len() > 0 {
        assert(exists|id: Seq<char>| draft.selected.contains(id)) by {
            let id = draft.selected.choose();
            assert(draft.selected.contains(id));
        }
        let id = choose|id: Seq<char>| draft.selected.contains(id);
        assert(offers(question, id));
        let k = choose|k: int| 0 <= k < n && (#[trigger] question.options[k]).id == id;
        selected_ids_hold(question.options, draft.selected, n, k);
    } else if ids.len() > 0 {
        selected_ids_are_selected(question.options, draft.selected, n, 0);
        assert(draft.selected.contains(ids[0]));
        assert(draft.selected =~= Set::empty());
    }
    if !question.multi_select && ids.len() > 1 {
        selected_ids_are_selected(question.options, draft.selected, n, 0);
        selected_ids_are_selected(question.options, draft.selected, n, 1);
        assert(ids[0] == ids[1]);
    }
}

/// The answers of a panel in which every question is answered are accepted, unless free text is too
/// long: whatever keys were pressed.
pub proof fn completed_panels_give_accepted_answers(m: PromptView)
    requires
        questions_problem(m.questions, 0) is None,
        panel_fits(m),
        forall|i: int| 0 <= i < m.drafts.len() ==> has_answer(#[trigger] m.drafts[i]),
        forall|i: int| 0 <= i < m.drafts.len() ==> trimmed((#[trigger] m.drafts[i]).other).len() <= 4000,
    ensures
        validation_problem(m.questions, answers_given(m)) is None,
{
    let answers = answers_given(m);
    crate::interaction::accepted_questions_have_distinct_ids(m.questions);
    let ids = crate::interaction::question_ids(m.questions);
    assert forall|i: int| 0 <= i < answers.len() implies answer_problem(
        m.questions,
        answers,
        i,
    ) is None by {
        let q = m.questions[i];
        assert(answers[i] == answer_of(q, m.drafts[i]));
        assert forall|k: int| 0 <= k < i implies (#[trigger] answers[k]).question_id
            != answers[i].question_id by {
            assert(answers[k].question_id == ids[k] && answers[i].question_id == ids[i]);
        }
        crate::interaction::first_question_of_its_id(m.questions, i);
        crate::interaction::accepted_question_at(m.questions, i);
        accepted_questions_have_distinct_options(m.questions, i);
        assert(draft_fits(q, m.drafts[i]));
        answer_is_accepted(q, m.drafts[i]);
    }
    crate::interaction::no_problem_in_any_answer(m.questions, answers, 0);
}

/// A key that ends the panel leaves every question answered.
pub proof fn panels_end_with_every_question_answered(m: PromptView, key: Key, ctrl: bool)
    requires
        panel_fits(m),
        keyed(m, key, ctrl).1,
    ensures
        forall|i: int|
            0 <= i < m.drafts.len() ==> has_answer(#[trigger] keyed(m, key, ctrl).0.drafts[i]),
{
    let after = keyed(m, key, ctrl).0;
    assert forall|i: int| 0 <= i < m.drafts.len() implies has_answer(#[trigger] after.drafts[i]) by {
        if i < m.index {
            assert(after.drafts[i] == m.drafts[i]);
        }
    }
}

/// Choosing an option of a question for one answer chooses that option alone; of a question for
/// several it is added, and choosing it again takes it away.
pub proof fn options_are_chosen(m: PromptView, i: int)
    requires
        0 <= m.index < m.questions.len(),
        m.drafts.len() == m.questions.len(),
        0 <= i < m.question().options.len(),
    ensures
        ({
            let id = m.question().options[i].id;
            let after = chosen(m, i);
            let twice = chosen(after, i);
            &&& !m.question().multi_select ==> after.draft().selected =~= Set::empty().insert(id)
                && after.draft().other.len() == 0
            &&& m.question().multi_select ==> after.draft().selected.contains(id)
                != m.draft().selected.contains(id) && after.draft().other == m.draft().other
            &&& m.question().multi_select ==> forall|other: Seq<char>|
                other != id ==> after.draft().selected.contains(other) == #[trigger] m.draft(
                ).selected.contains(other)
            &&& m.question().multi_select ==> twice.draft().selected =~= m.draft().selected
            &&& after.questions == m.questions && after.index == m.index
        }),
{
}

/// A question is left only once it has an answer, and the next one follows; behind the last one all
/// is answered.
pub proof fn questions_follow_each_other(m: PromptView)
    requires
        0 <= m.index < m.questions.len(),
    ensures
        ({
            let (after, done) = confirmed(m);
            let answered = m.draft().selected.len() > 0 || !blank(m.draft().other);
            &&& !answered ==> after == m && !done
            &&& answered && m.index + 1 < m.questions.len() ==> after.index == m.index + 1 && !done
                && after.drafts == m.drafts
            &&& answered && m.index + 1 == m.questions.len() ==> done && after.drafts == m.drafts
        }),
{
}

/// The ids in an answer are those of the options that were chosen, in the order of the options.
pub proof fn answers_name_the_chosen_options(question: QuestionView, draft: DraftView)
    ensures
        answer_of(question, draft).question_id == question.id,
        answer_of(question, draft).selected == question.options.map_values(
            |o: OptionView| o.id,
        ).filter(|id: Seq<char>| draft.selected.contains(id)),
        blank(draft.other) ==> answer_of(question, draft).other is None,
        !blank(draft.other) ==> answer_of(question, draft).other == Some(trimmed(draft.other)),
{
    selected_ids_are_a_choice(question.options, draft.selected, question.options.len() as int);
    assert(question.options.take(question.options.len() as int) =~= question.options);
}

proof fn selected_ids_are_a_choice(options: Seq<OptionView>, selected: Set<Seq<char>>, n: int)
    requires
        0 <= n <= options.len(),
    ensures
        selected_ids(options, selected, n) == options.take(n).map_values(
            |o: OptionView| o.id,
        ).filter(|id: Seq<char>| selected.contains(id)),
    decreases n,
{
    reveal(Seq::filter);
    let ids = options.take(n).map_values(|o: OptionView| o.id);
    if n == 0 {
        assert(ids.filter(|id: Seq<char>| selected.contains(id)) =~= Seq::empty());
    } else {
        selected_ids_are_a_choice(options, selected, n - 1);
        assert(ids.drop_last() =~= options.take(n - 1).map_values(|o: OptionView| o.id));
        assert(ids.last() == options[n - 1].id);
    }
}

/// Each question gets the answer that was given to it.
pub proof fn each_question_gets_its_answer(m: PromptView, i: int)
    requires
        0 <= i < m.questions.len(),
    ensures
        answers_given(m).len() == m.questions.len(),
        answers_given(m)[i] == answer_of(m.questions[i], m.drafts[i]),
{
}

/// The digits choose the options by their number, the space the marked one; the arrows move the
/// mark by one within the options and change no answer.
pub proof fn keys_choose_and_move(m: PromptView, key: Key, ctrl: bool)
    requires
        !m.editing_other,
        0 <= m.cursor < m.option_count(),
    ensures
        keyed(m, Key::Char('1'), ctrl) == (chosen(m, 0), false),
        keyed(m, Key::Char('2'), ctrl) == (chosen(m, 1), false),
        keyed(m, Key::Char('5'), ctrl) == (chosen(m, 4), false),
        keyed(m, Key::Char(' '), ctrl) == (chosen(m, m.cursor), false),
        m.cursor > 0 ==> keyed(m, Key::Up, ctrl).0 == (PromptView { cursor: m.cursor - 1, ..m }),
        m.cursor + 1 < m.option_count() ==> keyed(m, Key::Down, ctrl).0 == (PromptView {
            cursor: m.cursor + 1,
            ..m
        }),
        keyed(m, Key::Up, ctrl).0.drafts == m.drafts,
        keyed(m, Key::Down, ctrl).0.drafts == m.drafts,
        keyed(m, key, ctrl).1 ==> key == Key::Enter,
{
}

/// What is typed as free text is added at its end, and taken back from there.
pub proof fn free_text_is_typed(m: PromptView, c: char)
    requires
        m.editing_other,
        0 <= m.index < m.questions.len(),
        m.drafts.len() == m.questions.len(),
    ensures
        keyed(m, Key::Char(c), false).0.draft().other == m.draft().other.push(c),
        keyed(m, Key::Char(c), false).0.draft().selected == m.draft().selected,
        m.draft().other.len() > 0 ==> keyed(m, Key::Backspace, false).0.draft().other
            == m.draft().other.drop_last(),
        blank(m.draft().other) ==> keyed(m, Key::Enter, false) == (m, false),
{
}

} // verus!
