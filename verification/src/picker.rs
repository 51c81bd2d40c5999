//! The list in which the user picks a model.
use crate::keys::Key;
use crate::text::{cat5, contains, has_text, same, split_words, text_of_all, texts, words};
use crate::types::ModelSummary;
use vstd::prelude::*;

verus! {

/// What `str::to_lowercase` makes of a text.
pub uninterp spec fn lowered(text: Seq<char>) -> Seq<char>;

/// `str::to_lowercase`: a text in lower case.
#[verifier::external_body]
fn lower(text: &str) -> (r: String)
    ensures
        r@ == lowered(text@),
{
    text.to_lowercase()
}

/// What of a model is searched.
pub open spec fn searched(model: ModelSummary) -> Seq<char> {
    model.model_id@ + " "@ + model.display_name@ + " "@ + model.category@
}

/// Texts in lower case.
pub open spec fn all_lowered(t: Seq<Seq<char>>) -> Seq<Seq<char>> {
    t.map_values(|s: Seq<char>| lowered(s))
}

/// Whether a text has all of some terms.
pub open spec fn has_all(text: Seq<char>, terms: Seq<Seq<char>>) -> bool {
    forall|i: int| 0 <= i < terms.len() ==> has_text(text, #[trigger] terms[i])
}

/// Whether a model has all the words of a query, capitals aside.
pub open spec fn is_match(model: ModelSummary, query: Seq<char>) -> bool {
    has_all(lowered(searched(model)), all_lowered(words(query)))
}

/// Whether a text has all of some terms.
pub fn contains_all(text: &str, terms: &Vec<String>) -> (r: bool)
    ensures
        r == has_all(text@, texts(terms@)),
{
    let ghost all = texts(terms@);
    let mut i: usize = 0;
    while i < terms.len()
        invariant
            i <= terms@.len(),
            all == texts(terms@),
            forall|k: int| 0 <= k < i ==> has_text(text@, #[trigger] all[k]),
        decreases terms.len() - i,
    {
        assert(all[i as int] == terms@[i as int]@);
        if !contains(text, terms[i].as_str()) {
            return false;
        }
        i += 1;
    }
    true
}

/// Whether a model has all the words of a query, capitals aside.
pub fn model_matches(model: &ModelSummary, query: &str) -> (r: bool)
    ensures
        r == is_match(*model, query@),
{
    let text = cat5(
        model.model_id.as_str(),
        " ",
        model.display_name.as_str(),
        " ",
        model.category.as_str(),
    );
    let given = split_words(query);
    let ghost all = texts(given@);
    let mut terms: Vec<String> = Vec::new();
    let mut i: usize = 0;
    while i < given.len()
        invariant
            i <= given@.len(),
            all == texts(given@),
            texts(terms@) == all_lowered(all.take(i as int)),
        decreases given.len() - i,
    {
        let term = lower(given[i].as_str());
        let ghost before = texts(terms@);
        terms.push(term);
        assert(texts(terms@) =~= before.push(term@));
        assert(all_lowered(all.take(i + 1)) =~= before.push(lowered(all[i as int])));
        i += 1;
    }
    assert(all.take(i as int) =~= all);
    contains_all(lower(text.as_str()).as_str(), &terms)
}

/// The list: the models with tools, what they are searched for, the one that is marked and the
/// first that is shown.
#[derive(Debug, PartialEq, Eq)]
pub struct ModelPicker {
    pub eligible: Vec<ModelSummary>,
    pub query: Vec<char>,
    pub selected: usize,
    pub offset: usize,
}

/// The mathematical value of a [`ModelPicker`].
#[verifier::ext_equal]
pub struct PickerView {
    pub eligible: Seq<ModelSummary>,
    pub query: Seq<char>,
    pub selected: int,
    pub offset: int,
}

impl View for ModelPicker {
    type V = PickerView;

    open spec fn view(&self) -> PickerView {
        PickerView {
            eligible: self.eligible@,
            query: self.query@,
            selected: self.selected as int,
            offset: self.offset as int,
        }
    }
}

/// The models with tools.
pub open spec fn with_tools(models: Seq<ModelSummary>) -> Seq<ModelSummary>
    decreases models.len(),
{
    if models.len() == 0 {
        Seq::empty()
    } else if models.last().supports_tools {
        with_tools(models.drop_last()).push(models.last())
    } else {
        with_tools(models.drop_last())
    }
}

/// The place of the first model of an id from a place on; 0 where there is none.
pub open spec fn place_of(models: Seq<ModelSummary>, id: Seq<char>, from: int) -> int
    decreases models.len() - from,
{
    if from < 0 || from >= models.len() {
        0
    } else if models[from].model_id@ == id {
        from
    } else {
        place_of(models, id, from + 1)
    }
}

/// The places of the first `n` models that match a query.
pub open spec fn matches_of(models: Seq<ModelSummary>, query: Seq<char>, n: int) -> Seq<int>
    decreases n,
{
    if n <= 0 {
        Seq::empty()
    } else {
        let before = matches_of(models, query, n - 1);
        if is_match(models[n - 1], query) {
            before.push(n - 1)
        } else {
            before
        }
    }
}

impl PickerView {
    /// The places of the models that match.
    pub open spec fn filtered(self) -> Seq<int> {
        matches_of(self.eligible, self.query, self.eligible.len() as int)
    }
}

/// The last of `count` places.
pub open spec fn last_place(count: int) -> int {
    if count > 0 {
        count - 1
    } else {
        0
    }
}

/// A list that shows the model that is marked, in some rows and with `count` models that match.
pub open spec fn settled(m: PickerView, count: int, rows: int) -> PickerView {
    let selected = if m.selected < last_place(count) {
        m.selected
    } else {
        last_place(count)
    };
    let near = if selected < m.offset {
        selected
    } else if selected >= m.offset + rows {
        selected + 1 - rows
    } else {
        m.offset
    };
    let offset = if near < last_place(count) {
        near
    } else {
        last_place(count)
    };
    PickerView { selected, offset, ..m }
}

/// What comes of a key.
#[derive(Debug, PartialEq, Eq)]
pub enum PickerStep {
    Continue,
    Cancel,
    Choose(String),
}

/// The mathematical value of a [`PickerStep`].
pub enum PickView {
    Continue,
    Cancel,
    Choose(Seq<char>),
}

impl View for PickerStep {
    type V = PickView;

    open spec fn view(&self) -> PickView {
        match self {
            PickerStep::Continue => PickView::Continue,
            PickerStep::Cancel => PickView::Cancel,
            PickerStep::Choose(id) => PickView::Choose(id@),
        }
    }
}

/// The list with another query, from its start.
pub open spec fn searching(m: PickerView, query: Seq<char>) -> PickerView {
    PickerView { query, selected: 0, offset: 0, ..m }
}

/// The list after a key, and what comes of it; `filtered` are the places of the models that match.
pub open spec fn keyed(
    m: PickerView,
    filtered: Seq<int>,
    key: Key,
    ctrl: bool,
    rows: int,
) -> (PickerView, PickView) {
    let last = last_place(filtered.len() as int);
    match key {
        Key::Escape => (m, PickView::Cancel),
        Key::Enter => if m.selected < filtered.len() {
            (m, PickView::Choose(m.eligible[filtered[m.selected]].model_id@))
        } else {
            (m, PickView::Continue)
        },
        Key::Up => (
            PickerView {
                selected: if m.selected > 0 {
                    m.selected - 1
                } else {
                    0
                },
                ..m
            },
            PickView::Continue,
        ),
        Key::Down => (
            PickerView {
                selected: if m.selected + 1 < last {
                    m.selected + 1
                } else {
                    last
                },
                ..m
            },
            PickView::Continue,
        ),
        Key::PageUp => (
            PickerView {
                selected: if m.selected > rows {
                    m.selected - rows
                } else {
                    0
                },
                ..m
            },
            PickView::Continue,
        ),
        Key::PageDown => (
            PickerView {
                selected: if m.selected + rows < last {
                    m.selected + rows
                } else {
                    last
                },
                ..m
            },
            PickView::Continue,
        ),
        Key::Backspace => (
            searching(
                m,
                if m.query.len() > 0 {
                    m.query.drop_last()
                } else {
                    m.query
                },
            ),
            PickView::Continue,
        ),
        Key::Char(c) => if ctrl {
            if c == 'c' {
                (m, PickView::Cancel)
            } else if c == 'u' {
                (searching(m, Seq::empty()), PickView::Continue)
            } else {
                (m, PickView::Continue)
            }
        } else {
            (searching(m, m.query.push(c)), PickView::Continue)
        },
        _ => (m, PickView::Continue),
    }
}

impl ModelPicker {
    /// A list of models, with the current one marked.
    pub fn new(models: Vec<ModelSummary>, current: &str) -> (r: Result<Self, String>)
        ensures
            match r {
                Ok(picker) => with_tools(models@).len() > 0 && picker@ == (PickerView {
                    eligible: with_tools(models@),
                    query: Seq::empty(),
                    selected: place_of(with_tools(models@), current@, 0),
                    offset: 0,
                }),
                Err(e) => with_tools(models@).len() == 0 && e@
                    == "No tool-capable model is available."@,
            },
    {
        let mut eligible: Vec<ModelSummary> = Vec::new();
        let mut i: usize = 0;
        while i < models.len()
            invariant
                i <= models@.len(),
                eligible@ == with_tools(models@.take(i as int)),
            decreases models.len() - i,
        {
            assert(models@.take(i + 1).drop_last() =~= models@.take(i as int));
            if models[i].supports_tools {
                eligible.push(models[i].clone());
            }
            i += 1;
        }
        assert(models@.take(i as int) =~= models@);
        if eligible.len() == 0 {
            return Err("No tool-capable model is available.".to_owned());
        }
        let mut selected: usize = 0;
        let mut k: usize = 0;
        while k < eligible.len()
            invariant_except_break
                k <= eligible@.len(),
                place_of(eligible@, current@, 0) == place_of(eligible@, current@, k as int),
                selected == 0,
            ensures
                selected == place_of(eligible@, current@, 0),
            decreases eligible.len() - k,
        {
            if same(eligible[k].model_id.as_str(), current) {
                selected = k;
                break;
            }
            k += 1;
        }
        Ok(ModelPicker { eligible, query: Vec::new(), selected, offset: 0 })
    }

    /// The places of the models that match.
    pub fn filtered(&self) -> (r: Vec<usize>)
        ensures
            r@.map_values(|i: usize| i as int) == self@.filtered(),
            forall|k: int| 0 <= k < r@.len() ==> #[trigger] r@[k] < self.eligible@.len(),
    {
        let query = text_of_all(&self.query);
        let mut r: Vec<usize> = Vec::new();
        let mut i: usize = 0;
        assert(r@.map_values(|i: usize| i as int) =~= Seq::empty());
        while i < self.eligible.len()
            invariant
                i <= self.eligible@.len(),
                query@ == self@.query,
                r@.map_values(|i: usize| i as int) == matches_of(
                    self@.eligible,
                    self@.query,
                    i as int,
                ),
                forall|k: int| 0 <= k < r@.len() ==> #[trigger] r@[k] < self.eligible@.len(),
            decreases self.eligible.len() - i,
        {
            if model_matches(&self.eligible[i], query.as_str()) {
                let ghost before = r@.map_values(|i: usize| i as int);
                r.push(i);
                assert(r@.map_values(|i: usize| i as int) =~= before.push(i as int));
            }
            i += 1;
        }
        r
    }

    /// Moves the list so that it shows the model that is marked, in some rows and with `count`
    /// models that match.
    pub fn settle(&mut self, count: usize, rows: usize)
        requires
            rows >= 1,
        ensures
            final(self)@ == settled(old(self)@, count as int, rows as int),
            final(self).eligible == old(self).eligible,
    {
        let last: usize = if count > 0 {
            count - 1
        } else {
            0
        };
        if self.selected >= last {
            self.selected = last;
        }
        if self.selected < self.offset {
            self.offset = self.selected;
        } else if self.selected - self.offset >= rows {
            self.offset = self.selected - (rows - 1);
        }
        if self.offset >= last {
            self.offset = last;
        }
    }

    /// Takes a key; `filtered` are the places of the models that match, in which one is marked.
    pub fn handle_key(&mut self, filtered: &Vec<usize>, key: Key, ctrl: bool, rows: usize) -> (r:
        PickerStep)
        requires
            forall|k: int|
                0 <= k < filtered@.len() ==> #[trigger] filtered@[k] < old(self).eligible@.len(),
            old(self).selected <= last_place(filtered@.len() as int),
        ensures
            (final(self)@, r@) == keyed(
                old(self)@,
                filtered@.map_values(|i: usize| i as int),
                key,
                ctrl,
                rows as int,
            ),
            final(self).eligible == old(self).eligible,
    {
        let ghost places = filtered@.map_values(|i: usize| i as int);
        assert(places.len() == filtered@.len());
        let last: usize = if filtered.len() > 0 {
            filtered.len() - 1
        } else {
            0
        };
        match key {
            Key::Escape => PickerStep::Cancel,
            Key::Enter => {
                if self.selected < filtered.len() {
                    assert(places[self.selected as int] == filtered@[self.selected as int] as int);
                    PickerStep::Choose(self.eligible[filtered[self.selected]].model_id.clone())
                } else {
                    PickerStep::Continue
                }
            },
            Key::Up => {
                if self.selected > 0 {
                    self.selected = self.selected - 1;
                }
                PickerStep::Continue
            },
            Key::Down => {
                if self.selected < last {
                    self.selected = self.selected + 1;
                } else {
                    self.selected = last;
                }
                PickerStep::Continue
            },
            Key::PageUp => {
                if self.selected > rows {
                    self.selected = self.selected - rows;
                } else {
                    self.selected = 0;
                }
                PickerStep::Continue
            },
            Key::PageDown => {
                if rows < last - self.selected {
                    self.selected = self.selected + rows;
                } else {
                    self.selected = last;
                }
                PickerStep::Continue
            },
            Key::Backspace => {
                let ghost before = self.query@;
                if self.query.len() > 0 {
                    let n: usize = self.query.len() - 1;
                    self.query.truncate(n);
                    assert(self.query@ =~= before.drop_last());
                }
                self.selected = 0;
                self.offset = 0;
                PickerStep::Continue
            },
            Key::Char(c) => {
                if ctrl {
                    if c == 'c' {
                        return PickerStep::Cancel;
                    }
                    if c == 'u' {
                        self.query = Vec::new();
                        self.selected = 0;
                        self.offset = 0;
                    }
                    return PickerStep::Continue;
                }
                self.query.push(c);
                self.selected = 0;
                self.offset = 0;
                PickerStep::Continue
            },
            _ => PickerStep::Continue,
        }
    }
}

// ---------------------------------------------------------------------------------------------
// Laws
// ---------------------------------------------------------------------------------------------

/// The model that is marked is one of those that are shown.
pub proof fn marked_model_is_shown(m: PickerView, count: int, rows: int)
    requires
        rows >= 1,
        count > 0,
        m.selected >= 0,
        m.offset >= 0,
    ensures
        ({
            let after = settled(m, count, rows);
            &&& 0 <= after.selected < count
            &&& after.offset <= after.selected < after.offset + rows
        }),
{
}

/// A list that shows the marked model is left as it is.
pub proof fn settling_twice_is_settling_once(m: PickerView, count: int, rows: int)
    requires
        rows >= 1,
        m.selected >= 0,
        m.offset >= 0,
    ensures
        settled(settled(m, count, rows), count, rows) == settled(m, count, rows),
{
}

/// A model is found where each word of the query stands somewhere in its id, name or category,
/// whatever the case; and the models that are found stand in their order.
pub proof fn models_are_found_by_all_words(models: Seq<ModelSummary>, query: Seq<char>, n: int)
    requires
        0 <= n <= models.len(),
    ensures
        matches_of(models, query, n) == Seq::new(n as nat, |i: int| i).filter(
            |i: int|
                forall|k: int|
                    0 <= k < words(query).len() ==> has_text(
                        lowered(
                            models[i].model_id@ + " "@ + models[i].display_name@ + " "@
                                + models[i].category@,
                        ),
                        lowered(#[trigger] words(query)[k]),
                    ),
        ),
    decreases n,
{
    reveal(Seq::filter);
    let places = Seq::new(n as nat, |i: int| i);
    let found = |i: int|
        forall|k: int|
            0 <= k < words(query).len() ==> has_text(
                lowered(
                    models[i].model_id@ + " "@ + models[i].display_name@ + " "@
                        + models[i].category@,
                ),
                lowered(#[trigger] words(query)[k]),
            );
    if n == 0 {
        assert(places.filter(found) =~= Seq::empty());
    } else {
        models_are_found_by_all_words(models, query, n - 1);
        assert(places.drop_last() =~= Seq::new((n - 1) as nat, |i: int| i));
        let model = models[n - 1];
        let terms = all_lowered(words(query));
        assert(is_match(model, query) == found(n - 1)) by {
            if is_match(model, query) {
                assert forall|k: int| 0 <= k < words(query).len() implies has_text(
                    lowered(searched(model)),
                    lowered(#[trigger] words(query)[k]),
                ) by {
                    assert(has_text(lowered(searched(model)), terms[k]));
                }
            }
            if found(n - 1) {
                assert forall|k: int| 0 <= k < terms.len() implies has_text(
                    lowered(searched(model)),
                    #[trigger] terms[k],
                ) by {
                    assert(terms[k] == lowered(words(query)[k]));
                }
            }
        }
    }
}

/// Only models with tools are offered, and all of them in their order.
pub proof fn models_with_tools_are_offered(models: Seq<ModelSummary>)
    ensures
        with_tools(models) == models.filter(|m: ModelSummary| m.supports_tools),
    decreases models.len(),
{
    reveal(Seq::filter);
    if models.len() > 0 {
        models_with_tools_are_offered(models.drop_last());
    }
}

/// The model that is taken is the marked one among those found; without one nothing is taken.
/// Leaving takes none.
pub proof fn the_marked_model_is_taken(m: PickerView, filtered: Seq<int>, rows: int)
    requires
        m.selected >= 0,
    ensures
        m.selected < filtered.len() ==> keyed(m, filtered, Key::Enter, false, rows).1
            == PickView::Choose(m.eligible[filtered[m.selected]].model_id@),
        m.selected >= filtered.len() ==> keyed(m, filtered, Key::Enter, false, rows).1
            == PickView::Continue,
        keyed(m, filtered, Key::Escape, false, rows).1 == PickView::Cancel,
        keyed(m, filtered, Key::Char('c'), true, rows).1 == PickView::Cancel,
{
}

/// The mark goes one place or one page up or down, never beyond the ends; typing and erasing change
/// the query by one character at its end and mark the first model found.
pub proof fn the_mark_moves_within_the_list(m: PickerView, filtered: Seq<int>, rows: int, c: char)
    requires
        0 <= m.selected < filtered.len(),
        rows > 0,
    ensures
        ({
            let up = keyed(m, filtered, Key::Up, false, rows).0;
            let down = keyed(m, filtered, Key::Down, false, rows).0;
            let top = keyed(m, filtered, Key::PageUp, false, rows).0;
            let end = keyed(m, filtered, Key::PageDown, false, rows).0;
            &&& m.selected > 0 ==> up.selected == m.selected - 1
            &&& m.selected == 0 ==> up.selected == 0
            &&& m.selected < filtered.len() - 1 ==> down.selected == m.selected + 1
            &&& m.selected == filtered.len() - 1 ==> down.selected == m.selected
            &&& top.selected == m.selected - rows || top.selected == 0 && m.selected <= rows
            &&& end.selected == m.selected + rows || end.selected == filtered.len() - 1
                && m.selected + rows >= filtered.len() - 1
            &&& up.query == m.query && down.query == m.query
        }),
        keyed(m, filtered, Key::Char(c), false, rows).0.query == m.query.push(c),
        keyed(m, filtered, Key::Char(c), false, rows).0.selected == 0,
        m.query.len() > 0 ==> keyed(m, filtered, Key::Backspace, false, rows).0.query
            == m.query.drop_last(),
        keyed(m, filtered, Key::Char('u'), true, rows).0.query.len() == 0,
{
}

/// The place of a model is that of the first one of its id.
pub proof fn models_are_placed_by_their_id(models: Seq<ModelSummary>, id: Seq<char>, at: int, from: int)
    requires
        0 <= from <= at < models.len(),
        models[at].model_id@ == id,
        forall|i: int| from <= i < at ==> (#[trigger] models[i]).model_id@ != id,
    ensures
        place_of(models, id, from) == at,
    decreases at - from,
{
    if from < at {
        assert(models[from].model_id@ != id);
        models_are_placed_by_their_id(models, id, at, from + 1);
    }
}

} // verus!
