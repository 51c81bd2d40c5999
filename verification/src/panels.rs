//! The live part of the screen: panels, the prompt line, the list of models and the status.
use crate::config::PermissionMode;
use crate::composer::mode_texts;
use crate::display::{
    add_row, bold, in_bold, in_italics, in_tone, italic, mode_color, no_rows, row1, row2, row3,
    tone_of, toned, Row, RowView, Styled, StyledView, Tone,
};
use crate::layout::{shortened, truncate_line, wrap, wrapped};
use crate::questions::{PromptView, QuestionPrompt};
use crate::text::{
    blank, cat2, cat3, cat4, cat5, chars_of, decimal, has_text, is_blank, lines, number_text,
    occurs_at, same, split_lines, text_of, text_of_all, texts,
};
use crate::tool::ToolPermissionDescription;
use crate::types::ModelSummary;
use vstd::prelude::*;

verus! {

/// The difference of two numbers, 0 where it would be negative.
pub open spec fn less(a: nat, b: nat) -> nat {
    if a > b {
        (a - b) as nat
    } else {
        0
    }
}

fn minus(a: usize, b: usize) -> (r: usize)
    ensures
        r == less(a as nat, b as nat),
{
    if a > b {
        a - b
    } else {
        0
    }
}

/// The first `n` rows.
pub open spec fn first_rows(rows: Seq<RowView>, n: nat) -> Seq<RowView> {
    if rows.len() <= n {
        rows
    } else {
        rows.take(n as int)
    }
}

fn keep_first(rows: &mut Vec<Row>, n: usize)
    ensures
        final(rows).deep_view() == first_rows(old(rows).deep_view(), n as nat),
{
    let ghost before = rows.deep_view();
    rows.truncate(n);
    assert(rows.deep_view() =~= first_rows(before, n as nat));
}

// ---------------------------------------------------------------------------------------------
// Permissions
// ---------------------------------------------------------------------------------------------

/// The row of keys of the panel that asks for permission.
pub open spec fn permission_keys() -> RowView {
    seq![
        in_bold("y"@, Tone::Green),
        in_tone(" allow   "@, Tone::Text),
        in_bold("a"@, Tone::Cyan),
        in_tone(" always allow   "@, Tone::Text),
        in_bold("n"@, Tone::Red),
        in_tone(" deny"@, Tone::Text),
    ]
}

/// The rows of the panel that asks for permission: what is asked, a warning, as much of a preview as
/// leaves room for the keys, and the keys.
pub open spec fn permission_shown(d: ToolPermissionDescription, width: nat, height: nat) -> Seq<
    RowView,
> {
    let asked = seq![seq![in_bold(shortened(d.summary@, width), Tone::Bright)]];
    let warned = match d.warning {
        Some(text) => asked.push(seq![in_tone(shortened(text@, width), Tone::Red)]),
        None => asked,
    };
    let shown = match d.preview {
        Some(text) => {
            let room = less(height, warned.len() + 1);
            let rows = lines(text@).map_values(
                |line: Seq<char>| seq![in_tone(shortened(line, width), Tone::Dim)],
            );
            warned + first_rows(rows, room)
        },
        None => warned,
    };
    first_rows(shown.push(permission_keys()), height)
}

/// The rows of the panel that asks for permission.
pub fn permission_rows(d: &ToolPermissionDescription, width: usize, height: usize) -> (r: Vec<Row>)
    ensures
        r.deep_view() == permission_shown(*d, width as nat, height as nat),
{
    let mut rows = no_rows();
    add_row(
        &mut rows,
        row1(bold(truncate_line(d.summary.as_str(), width).as_str(), Tone::Bright)),
    );
    assert(rows.deep_view() =~= seq![seq![in_bold(shortened(d.summary@, width as nat), Tone::Bright)]]);
    if let Some(text) = &d.warning {
        add_row(
            &mut rows,
            row1(toned(truncate_line(text.as_str(), width).as_str(), Tone::Red)),
        );
    }
    let ghost warned = rows.deep_view();
    if let Some(text) = &d.preview {
        let used = rows.len();
        assert(rows.deep_view().len() == used);
        let room = minus(height, used + 1);
        let all = split_lines(text.as_str());
        let ghost views = lines(text@).map_values(
            |line: Seq<char>| seq![in_tone(shortened(line, width as nat), Tone::Dim)],
        );
        let mut i: usize = 0;
        assert(warned + views.take(0) =~= warned);
        while i < all.len() && i < room
            invariant
                i <= all@.len(),
                i <= room,
                texts(all@) == lines(text@),
                views == lines(text@).map_values(
                    |line: Seq<char>| seq![in_tone(shortened(line, width as nat), Tone::Dim)],
                ),
                rows.deep_view() == warned + views.take(i as int),
            decreases all.len() - i,
        {
            assert(lines(text@)[i as int] == all@[i as int]@);
            add_row(
                &mut rows,
                row1(toned(truncate_line(all[i].as_str(), width).as_str(), Tone::Dim)),
            );
            assert(views[i as int] == rows.deep_view().last());
            assert(rows.deep_view() =~= warned + views.take(i + 1));
            i += 1;
        }
        proof {
            assert(views.len() == all@.len()) by {
                assert(texts(all@).len() == all@.len());
            }
            assert(views.take(i as int) =~= first_rows(views, room as nat));
        }
    }
    let mut keys: Row = Vec::new();
    keys.push(bold("y", Tone::Green));
    keys.push(toned(" allow   ", Tone::Text));
    keys.push(bold("a", Tone::Cyan));
    keys.push(toned(" always allow   ", Tone::Text));
    keys.push(bold("n", Tone::Red));
    keys.push(toned(" deny", Tone::Text));
    assert(keys.deep_view() =~= permission_keys());
    add_row(&mut rows, keys);
    keep_first(&mut rows, height);
    rows
}

// ---------------------------------------------------------------------------------------------
// Questions
// ---------------------------------------------------------------------------------------------

/// The title of the panel that asks a question.
pub open spec fn question_title(m: PromptView) -> Seq<char> {
    " "@ + m.question().header + " · "@ + decimal((m.index + 1) as nat) + "/"@ + decimal(
        m.questions.len(),
    ) + " "@
}

/// The title of the panel that asks a question.
pub fn panel_title(prompt: &QuestionPrompt) -> (r: String)
    requires
        prompt.wf(),
    ensures
        r@ == question_title(prompt@),
{
    assert(prompt.index < prompt.questions.len());
    let head = cat4(
        " ",
        prompt.question().header.as_str(),
        " · ",
        number_text(prompt.index as u64 + 1).as_str(),
    );
    cat4(head.as_str(), "/", number_text(prompt.questions.len() as u64).as_str(), " ")
}

/// The mark of the row that is marked.
pub open spec fn marker(active: bool) -> StyledView {
    in_tone(
        if active {
            "❯ "@
        } else {
            "  "@
        },
        Tone::Blue,
    )
}

fn mark(active: bool) -> (r: Styled)
    ensures
        r@ == marker(active),
{
    if active {
        toned("❯ ", Tone::Blue)
    } else {
        toned("  ", Tone::Blue)
    }
}

/// The number of a choice, behind a mark that says whether it is made.
pub open spec fn choice_number(made: bool, number: nat) -> StyledView {
    in_tone(
        (if made {
            "◉"@
        } else {
            "○"@
        }) + " "@ + decimal(number) + ". "@,
        if made {
            Tone::Green
        } else {
            Tone::Dim
        },
    )
}

fn number_choice(made: bool, number: u64) -> (r: Styled)
    ensures
        r@ == choice_number(made, number as nat),
{
    let sign = if made {
        "◉"
    } else {
        "○"
    };
    let tone = if made {
        Tone::Green
    } else {
        Tone::Dim
    };
    toned(cat4(sign, " ", number_text(number).as_str(), ". ").as_str(), tone)
}

/// The colour of a choice.
pub open spec fn choice_tone(active: bool) -> Tone {
    if active {
        Tone::Bright
    } else {
        Tone::Text
    }
}

/// The rows of the question that is shown and of its first `n` options. The option that is marked
/// is followed by what it means, where there is room.
pub open spec fn option_rows(m: PromptView, width: nat, height: nat, n: int) -> Seq<RowView>
    decreases n,
{
    let q = m.question();
    if n <= 0 {
        seq![seq![in_bold(shortened(q.question, width), Tone::Bright)]]
    } else {
        let option = q.options[n - 1];
        let active = m.cursor == n - 1 && !m.editing_other;
        let rows = option_rows(m, width, height, n - 1).push(
            seq![
                marker(active),
                choice_number(m.draft().selected.contains(option.id), n as nat),
                in_tone(shortened(option.label, less(width, 10)), choice_tone(active)),
            ],
        );
        if active && option.description.len() > 0 && rows.len() < height {
            rows.push(
                seq![
                    in_tone(
                        "      "@ + shortened(option.description, less(width, 6)),
                        Tone::Dim,
                    ),
                ],
            )
        } else {
            rows
        }
    }
}

/// The row of the line for free text.
pub open spec fn other_row(m: PromptView) -> RowView {
    let index = m.question().options.len();
    let active = m.cursor == index;
    let other = m.draft().other;
    seq![
        marker(active),
        choice_number(!blank(other), index + 1),
        in_tone(
            if m.editing_other {
                "Other: "@ + other + "▏"@
            } else if blank(other) {
                "Other…"@
            } else {
                "Other: "@ + other
            },
            choice_tone(active),
        ),
    ]
}

/// What the keys do in the panel that asks a question.
pub open spec fn question_hint(m: PromptView) -> Seq<char> {
    if m.editing_other {
        "type an answer · enter confirm · esc cancel turn"@
    } else if m.question().multi_select {
        "↑↓ move · space select · enter confirm · esc cancel turn"@
    } else {
        "↑↓ move · 1-5 select · enter confirm · esc cancel turn"@
    }
}

/// The rows of the panel that asks a question.
pub open spec fn question_shown(m: PromptView, width: nat, height: nat) -> Seq<RowView> {
    let options = option_rows(m, width, height, m.question().options.len() as int);
    let all = if m.question().allow_other {
        options.push(other_row(m))
    } else {
        options
    };
    first_rows(all.push(seq![in_tone(question_hint(m), Tone::Dim)]), height)
}

fn is_chosen(selected: &Vec<String>, id: &str) -> (r: bool)
    ensures
        r == texts(selected@).to_set().contains(id@),
{
    crate::permissions::is_listed(selected, id)
}

fn rows_of_options(prompt: &QuestionPrompt, width: usize, height: usize) -> (r: Vec<Row>)
    requires
        prompt.wf(),
    ensures
        r.deep_view() == option_rows(
            prompt@,
            width as nat,
            height as nat,
            prompt@.question().options.len() as int,
        ),
{
    let ghost m = prompt@;
    let question = prompt.question();
    let draft = &prompt.drafts[prompt.index];
    assert(m.draft() == draft@);
    let mut rows = no_rows();
    add_row(
        &mut rows,
        row1(bold(truncate_line(question.question.as_str(), width).as_str(), Tone::Bright)),
    );
    assert(rows.deep_view() =~= option_rows(m, width as nat, height as nat, 0));
    let mut i: usize = 0;
    while i < question.options.len()
        invariant
            i <= question.options@.len(),
            m == prompt@,
            m.question() == question@,
            m.draft() == draft@,
            rows.deep_view() == option_rows(m, width as nat, height as nat, i as int),
        decreases question.options.len() - i,
    {
        let option = &question.options[i];
        assert(m.question().options[i as int] == option@);
        let active = prompt.cursor == i && !prompt.editing_other;
        let made = is_chosen(&draft.selected, option.id.as_str());
        let tone = if active {
            Tone::Bright
        } else {
            Tone::Text
        };
        let label = truncate_line(option.label.as_str(), minus(width, 10));
        add_row(
            &mut rows,
            row3(mark(active), number_choice(made, i as u64 + 1), toned(label.as_str(), tone)),
        );
        assert(rows.deep_view().len() == rows@.len());
        if active && !option.description.as_str().is_empty() && rows.len() < height {
            let text = truncate_line(option.description.as_str(), minus(width, 6));
            add_row(&mut rows, row1(toned(cat2("      ", text.as_str()).as_str(), Tone::Dim)));
        }
        i += 1;
    }
    rows
}

fn row_of_other(prompt: &QuestionPrompt) -> (r: Row)
    requires
        prompt.wf(),
    ensures
        r.deep_view() == other_row(prompt@),
{
    let index = prompt.question().options.len();
    let active = prompt.cursor == index;
    let draft = &prompt.drafts[prompt.index];
    assert(prompt@.draft() == draft@);
    let none = is_blank(draft.other.as_str());
    let text = if prompt.editing_other {
        cat3("Other: ", draft.other.as_str(), "▏")
    } else if none {
        "Other…".to_owned()
    } else {
        cat2("Other: ", draft.other.as_str())
    };
    let tone = if active {
        Tone::Bright
    } else {
        Tone::Text
    };
    row3(mark(active), number_choice(!none, index as u64 + 1), toned(text.as_str(), tone))
}

/// The rows of the panel that asks a question.
pub fn question_rows(prompt: &QuestionPrompt, width: usize, height: usize) -> (r: Vec<Row>)
    requires
        prompt.wf(),
    ensures
        r.deep_view() == question_shown(prompt@, width as nat, height as nat),
{
    let mut rows = rows_of_options(prompt, width, height);
    if prompt.question().allow_other {
        add_row(&mut rows, row_of_other(prompt));
    }
    let hint = if prompt.editing_other {
        "type an answer · enter confirm · esc cancel turn"
    } else if prompt.question().multi_select {
        "↑↓ move · space select · enter confirm · esc cancel turn"
    } else {
        "↑↓ move · 1-5 select · enter confirm · esc cancel turn"
    };
    add_row(&mut rows, row1(toned(hint, Tone::Dim)));
    keep_first(&mut rows, height);
    rows
}

/// The height of the panel that asks a question on a screen of a height.
pub fn question_height(screen: u16) -> (r: u16)
    ensures
        r == if less(screen as nat, 1) < 6 {
            6
        } else if less(screen as nat, 1) > 10 {
            10
        } else {
            less(screen as nat, 1) as int
        },
{
    let h: u16 = if screen > 1 {
        screen - 1
    } else {
        0
    };
    if h < 6 {
        6
    } else if h > 10 {
        10
    } else {
        h
    }
}

/// The height of the panel that asks for permission on a screen of a height.
pub fn permission_height(screen: u16) -> (r: u16)
    ensures
        r == if less(screen as nat, 1) < 4 {
            4
        } else if less(screen as nat, 1) > 9 {
            9
        } else {
            less(screen as nat, 1) as int
        },
{
    let h: u16 = if screen > 1 {
        screen - 1
    } else {
        0
    };
    if h < 4 {
        4
    } else if h > 9 {
        9
    } else {
        h
    }
}

// ---------------------------------------------------------------------------------------------
// The prompt line
// ---------------------------------------------------------------------------------------------

/// How many characters of the prompt line fit in a box of a width.
pub open spec fn line_room(width: nat) -> nat {
    if less(width, 3) < 1 {
        1
    } else {
        less(width, 3)
    }
}

/// The first character of the prompt line that is shown.
pub open spec fn first_shown(len: nat, cursor: nat, width: nat) -> nat {
    let start = less(cursor, less(line_room(width), 1));
    if start < len {
        start
    } else {
        len
    }
}

/// The row of the prompt line, in a box of a width.
pub open spec fn input_row(chars: Seq<char>, cursor: nat, width: nat) -> RowView {
    let start = first_shown(chars.len(), cursor, width) as int;
    let end = if start + line_room(width) < chars.len() {
        start + line_room(width)
    } else {
        chars.len() as int
    };
    seq![
        in_bold("❯ "@, Tone::Green),
        if chars.len() == 0 {
            in_italics("Describe a task, or try /help"@, Tone::Dim)
        } else {
            in_tone(chars.subrange(start, end), Tone::Bright)
        },
    ]
}

/// The row of the prompt line, in a box of a width, and the column of the place in it.
pub fn compose_row(chars: &Vec<char>, cursor: usize, width: usize) -> (r: (Row, usize))
    requires
        cursor <= chars@.len(),
        chars@.len() < usize::MAX - 2,
    ensures
        r.0.deep_view() == input_row(chars@, cursor as nat, width as nat),
        r.1 == 2 + cursor - first_shown(chars@.len(), cursor as nat, width as nat),
{
    let mut room = minus(width, 3);
    if room < 1 {
        room = 1;
    }
    let mut start = minus(cursor, minus(room, 1));
    if start >= chars.len() {
        start = chars.len();
    }
    let end: usize = if room < chars.len() - start {
        start + room
    } else {
        chars.len()
    };
    let second = if chars.len() == 0 {
        italic("Describe a task, or try /help", Tone::Dim)
    } else {
        toned(text_of(chars, start, end).as_str(), Tone::Bright)
    };
    (row2(bold("❯ ", Tone::Green), second), 2 + (cursor - start))
}

/// The place in the prompt line is always shown.
pub proof fn cursor_is_shown(len: nat, cursor: nat, width: nat)
    requires
        cursor <= len,
    ensures
        first_shown(len, cursor, width) <= cursor,
        cursor - first_shown(len, cursor, width) < line_room(width),
{
}

/// The row above the prompt line.
pub open spec fn status_above(status: Seq<char>, mode: PermissionMode) -> RowView {
    seq![
        in_tone("◆ "@, Tone::Blue),
        in_tone(status, Tone::Dim),
        in_tone(" · "@, Tone::Dim),
        in_bold(mode_texts(mode).0 + " mode"@, tone_of(mode)),
    ]
}

/// The row above the prompt line.
pub fn above_row(status: &str, mode: PermissionMode) -> (r: Row)
    ensures
        r.deep_view() == status_above(status@, mode),
{
    let mut row = row3(toned("◆ ", Tone::Blue), toned(status, Tone::Dim), toned(" · ", Tone::Dim));
    let last = bold(cat2(mode.label(), " mode").as_str(), mode_color(mode));
    let ghost before = row.deep_view();
    row.push(last);
    assert(row.deep_view() =~= before.push(last@));
    assert(row.deep_view() =~= status_above(status@, mode));
    row
}

/// The row below the prompt line.
pub fn below_row(flash: Option<&str>) -> (r: Row)
    ensures
        r.deep_view() == match flash {
            Some(text) => seq![in_tone("  "@ + text@, Tone::Yellow)],
            None => seq![
                in_tone(
                    "  enter send · shift+tab mode · ↑↓ history · /help commands · ctrl+c quit"@,
                    Tone::Dim,
                ),
            ],
        },
{
    match flash {
        Some(text) => row1(toned(cat2("  ", text).as_str(), Tone::Yellow)),
        None => row1(
            toned(
                "  enter send · shift+tab mode · ↑↓ history · /help commands · ctrl+c quit",
                Tone::Dim,
            ),
        ),
    }
}

/// What the prompt line says of a session: its short id, what it cost and how full its context is,
/// as they are shown.
pub fn session_status(model: &str, session: Option<(&str, &str, &str)>) -> (r: String)
    ensures
        r@ == match session {
            Some((id, credits, context)) => model@ + " · session "@ + id@ + " · "@ + credits@
                + " credits"@ + context@,
            None => model@ + " · new session"@,
        },
{
    match session {
        Some((id, credits, context)) => {
            let head = cat5(model, " · session ", id, " · ", credits);
            cat3(head.as_str(), " credits", context)
        },
        None => cat2(model, " · new session"),
    }
}

// ---------------------------------------------------------------------------------------------
// The list of models
// ---------------------------------------------------------------------------------------------

/// What the list says of a model besides its name.
pub open spec fn model_details(model: ModelSummary) -> Seq<char> {
    "  "@ + model.model_id@ + " · "@ + decimal((model.context_window / 1000) as nat) + "k ctx"@ + (
    match model.credit_price_micro {
        Some(price) => " · "@ + decimal(price as nat) + " µc/tok"@,
        None => ""@,
    })
}

/// The row of a model in the list.
pub open spec fn model_shown(model: ModelSummary, selected: bool, current: Seq<char>, width: nat) -> RowView {
    let name = shortened(model.display_name@, width / 2);
    let first = seq![
        in_bold(
            if selected {
                "❯ "@
            } else {
                "  "@
            },
            Tone::Green,
        ),
        if selected {
            in_bold(name, Tone::Blue)
        } else {
            in_tone(name, Tone::Bright)
        },
    ];
    let second = if model.model_id@ == current {
        first.push(in_tone(" ● current"@, Tone::Green))
    } else {
        first
    };
    second.push(in_tone(model_details(model), Tone::Dim))
}

/// The row of a model in the list.
pub fn model_row(model: &ModelSummary, selected: bool, current: &str, width: usize) -> (r: Row)
    ensures
        r.deep_view() == model_shown(*model, selected, current@, width as nat),
{
    let name = truncate_line(model.display_name.as_str(), width / 2);
    let mut row = if selected {
        row2(bold("❯ ", Tone::Green), bold(name.as_str(), Tone::Blue))
    } else {
        row2(bold("  ", Tone::Green), toned(name.as_str(), Tone::Bright))
    };
    if same(model.model_id.as_str(), current) {
        let ghost before = row.deep_view();
        let note = toned(" ● current", Tone::Green);
        row.push(note);
        assert(row.deep_view() =~= before.push(note@));
    }
    let price = match model.credit_price_micro {
        Some(price) => cat3(" · ", number_text(price).as_str(), " µc/tok"),
        None => "".to_owned(),
    };
    let head = cat5(
        "  ",
        model.model_id.as_str(),
        " · ",
        number_text(model.context_window / 1000).as_str(),
        "k ctx",
    );
    let ghost before = row.deep_view();
    let details = toned(cat2(head.as_str(), price.as_str()).as_str(), Tone::Dim);
    row.push(details);
    assert(row.deep_view() =~= before.push(details@));
    row
}

/// The row of what is searched for in the list of models.
pub open spec fn search_row(query: Seq<char>, count: nat, total: nat) -> RowView {
    seq![
        in_bold("⌕ "@, Tone::Blue),
        if query.len() == 0 {
            in_italics("type to search models"@, Tone::Dim)
        } else {
            in_tone(query, Tone::Bright)
        },
        in_tone("  "@ + decimal(count) + " of "@ + decimal(total), Tone::Dim),
    ]
}

/// The rows of the list of models on a screen of a height, but for the last one: what is searched
/// for, and the models that match from the first that is shown.
pub open spec fn list_shown(
    eligible: Seq<ModelSummary>,
    filtered: Seq<int>,
    query: Seq<char>,
    selected: nat,
    offset: nat,
    current: Seq<char>,
    width: nat,
    height: nat,
) -> Seq<RowView> {
    let head = seq![search_row(query, filtered.len(), eligible.len())];
    let none = if filtered.len() == 0 {
        head.push(seq![in_italics("  no models match"@, Tone::Dim)])
    } else {
        head
    };
    let left = less(filtered.len(), offset);
    let count = if left < less(height, 2) {
        left
    } else {
        less(height, 2)
    };
    none + Seq::new(
        count,
        |i: int|
            model_shown(eligible[filtered[offset + i]], offset + i == selected, current, width),
    )
}

/// The rows of the list of models on a screen of a height, but for the last one.
pub fn list_rows(
    eligible: &Vec<ModelSummary>,
    filtered: &Vec<usize>,
    query: &Vec<char>,
    selected: usize,
    offset: usize,
    current: &str,
    width: usize,
    height: usize,
) -> (r: Vec<Row>)
    requires
        forall|k: int| 0 <= k < filtered@.len() ==> #[trigger] filtered@[k] < eligible@.len(),
    ensures
        r.deep_view() == list_shown(
            eligible@,
            filtered@.map_values(|i: usize| i as int),
            query@,
            selected as nat,
            offset as nat,
            current@,
            width as nat,
            height as nat,
        ),
{
    let ghost places = filtered@.map_values(|i: usize| i as int);
    let ghost expected = list_shown(
        eligible@,
        places,
        query@,
        selected as nat,
        offset as nat,
        current@,
        width as nat,
        height as nat,
    );
    let counted = cat4(
        "  ",
        number_text(filtered.len() as u64).as_str(),
        " of ",
        number_text(eligible.len() as u64).as_str(),
    );
    let searched = if query.len() == 0 {
        italic("type to search models", Tone::Dim)
    } else {
        toned(text_of_all(query).as_str(), Tone::Bright)
    };
    let mut rows = no_rows();
    add_row(
        &mut rows,
        row3(bold("⌕ ", Tone::Blue), searched, toned(counted.as_str(), Tone::Dim)),
    );
    assert(places.len() == filtered@.len());
    if filtered.len() == 0 {
        add_row(&mut rows, row1(italic("  no models match", Tone::Dim)));
    }
    let ghost base = rows.deep_view();
    let room = minus(height, 2);
    let left = minus(filtered.len(), offset);
    let count: usize = if left < room {
        left
    } else {
        room
    };
    let mut i: usize = 0;
    assert(expected.len() == base.len() + count);
    assert(base =~= expected.take(base.len() as int));
    while i < count
        invariant
            i <= count,
            count <= left,
            left == less(filtered@.len(), offset as nat),
            places == filtered@.map_values(|i: usize| i as int),
            forall|k: int| 0 <= k < filtered@.len() ==> #[trigger] filtered@[k] < eligible@.len(),
            expected.len() == base.len() + count,
            forall|k: int|
                0 <= k < count ==> #[trigger] expected[base.len() + k] == model_shown(
                    eligible@[places[offset + k]],
                    offset + k == selected,
                    current@,
                    width as nat,
                ),
            rows.deep_view() == expected.take(base.len() + i),
        decreases count - i,
    {
        assert(offset + i < filtered.len());
        let at = filtered[offset + i];
        assert(places[offset + i] == at as int);
        add_row(&mut rows, model_row(&eligible[at], offset + i == selected, current, width));
        assert(expected[base.len() + i] == rows.deep_view().last());
        assert(rows.deep_view() =~= expected.take(base.len() + i + 1));
        i += 1;
    }
    assert(expected.take(base.len() + i) =~= expected);
    rows
}

/// The last row of the list of models.
pub fn list_hint() -> (r: Row)
    ensures
        r.deep_view() == seq![
            in_tone("  ↑↓ navigate · enter select · esc cancel · type to filter"@, Tone::Dim),
        ],
{
    row1(toned("  ↑↓ navigate · enter select · esc cancel · type to filter", Tone::Dim))
}

// ---------------------------------------------------------------------------------------------
// The status while a turn runs
// ---------------------------------------------------------------------------------------------

/// The sign that turns while something runs.
pub open spec fn spinner(tick: nat) -> Seq<char> {
    let n = tick % 10;
    if n == 0 {
        "⠋"@
    } else if n == 1 {
        "⠙"@
    } else if n == 2 {
        "⠹"@
    } else if n == 3 {
        "⠸"@
    } else if n == 4 {
        "⠼"@
    } else if n == 5 {
        "⠴"@
    } else if n == 6 {
        "⠦"@
    } else if n == 7 {
        "⠧"@
    } else if n == 8 {
        "⠇"@
    } else {
        "⠏"@
    }
}

/// The sign that turns while something runs.
pub fn spin(tick: u64) -> (r: &'static str)
    ensures
        r@ == spinner(tick as nat),
{
    let n: u64 = tick % 10;
    if n == 0 {
        "⠋"
    } else if n == 1 {
        "⠙"
    } else if n == 2 {
        "⠹"
    } else if n == 3 {
        "⠸"
    } else if n == 4 {
        "⠼"
    } else if n == 5 {
        "⠴"
    } else if n == 6 {
        "⠦"
    } else if n == 7 {
        "⠧"
    } else if n == 8 {
        "⠇"
    } else {
        "⠏"
    }
}

/// What the model is said to do.
pub open spec fn verb(tick: nat) -> Seq<char> {
    let n = (tick / 28) % 10;
    if n == 0 {
        "Thinking"@
    } else if n == 1 {
        "Honing"@
    } else if n == 2 {
        "Forging"@
    } else if n == 3 {
        "Scheming"@
    } else if n == 4 {
        "Meditating"@
    } else if n == 5 {
        "Wandering"@
    } else if n == 6 {
        "Unsheathing"@
    } else if n == 7 {
        "Pondering"@
    } else if n == 8 {
        "Tracing"@
    } else {
        "Weighing"@
    }
}

fn verb_at(tick: u64) -> (r: &'static str)
    ensures
        r@ == verb(tick as nat),
{
    let n: u64 = (tick / 28) % 10;
    if n == 0 {
        "Thinking"
    } else if n == 1 {
        "Honing"
    } else if n == 2 {
        "Forging"
    } else if n == 3 {
        "Scheming"
    } else if n == 4 {
        "Meditating"
    } else if n == 5 {
        "Wandering"
    } else if n == 6 {
        "Unsheathing"
    } else if n == 7 {
        "Pondering"
    } else if n == 8 {
        "Tracing"
    } else {
        "Weighing"
    }
}

/// The colour of a character in the wave that runs through a text.
pub open spec fn wave_tone(tick: nat, i: int) -> Tone {
    let phase = (tick as int / 2 - i) % 4;
    if phase == 1 {
        Tone::Bright
    } else if phase == 3 {
        Tone::Dim
    } else {
        Tone::Text
    }
}

/// A text with a wave of light running through it.
pub open spec fn shimmering(text: Seq<char>, tick: nat) -> RowView {
    Seq::new(text.len(), |i: int| in_bold(seq![text[i]], wave_tone(tick, i)))
}

fn wave_phase(tick: u64, i: usize) -> (r: u64)
    ensures
        r == (tick as int / 2 - i as int) % 4,
{
    let a: u64 = (tick / 2) % 4;
    let b: u64 = (i % 4) as u64;
    let r: u64 = (a + 4 - b) % 4;
    proof {
        let x = tick as int / 2;
        let y = i as int;
        assert(r as int == (x - y) % 4) by (nonlinear_arith)
            requires
                a as int == x % 4,
                b as int == y % 4,
                r as int == (a as int + 4 - b as int) % 4,
        ;
    }
    r
}

/// A text with a wave of light running through it.
pub fn shimmer(text: &str, tick: u64) -> (r: Row)
    ensures
        r.deep_view() == shimmering(text@, tick as nat),
{
    let v = chars_of(text);
    let ghost expected = shimmering(text@, tick as nat);
    let mut row: Row = Vec::new();
    let mut i: usize = 0;
    assert(row.deep_view() =~= expected.take(0));
    while i < v.len()
        invariant
            i <= v@.len(),
            v@ == text@,
            expected == shimmering(text@, tick as nat),
            row.deep_view() == expected.take(i as int),
        decreases v.len() - i,
    {
        let phase = wave_phase(tick, i);
        let tone = if phase == 1 {
            Tone::Bright
        } else if phase == 3 {
            Tone::Dim
        } else {
            Tone::Text
        };
        let ghost before = row.deep_view();
        let one = text_of(&v, i, i + 1);
        assert(one@ =~= seq![text@[i as int]]);
        let piece = bold(one.as_str(), tone);
        row.push(piece);
        assert(row.deep_view() =~= before.push(piece@));
        assert(row.deep_view() =~= expected.take(i + 1));
        i += 1;
    }
    assert(expected.take(i as int) =~= expected);
    row
}

/// What a turn is doing: whether it stops, and the tool that runs.
pub open spec fn doing(tick: nat, stopping: bool, tool: Option<Seq<char>>) -> Seq<char> {
    if stopping {
        "Stopping"@
    } else {
        match tool {
            Some(name) => "Running "@ + name,
            None => verb(tick),
        }
    }
}

/// The row of the status while a turn runs; what it cost and how full the context is are given as
/// they are shown.
pub open spec fn status_shown(
    tick: nat,
    stopping: bool,
    tool: Option<Seq<char>>,
    seconds: nat,
    round: nat,
    credits: Seq<char>,
    context: Seq<char>,
) -> RowView {
    seq![in_bold(spinner(tick) + " "@, Tone::Blue)] + shimmering(
        doing(tick, stopping, tool) + "…"@,
        tick,
    ) + seq![
        in_tone(
            " ("@ + decimal(seconds) + "s · round "@ + decimal(round) + " · "@ + credits
                + " credits"@ + context + " · esc to interrupt)"@,
            Tone::Dim,
        ),
    ]
}

/// The row of the status while a turn runs.
pub fn status_row(
    tick: u64,
    stopping: bool,
    tool: &Option<String>,
    seconds: u64,
    round: u32,
    credits: &str,
    context: &str,
) -> (r: Row)
    ensures
        r.deep_view() == status_shown(
            tick as nat,
            stopping,
            tool.deep_view(),
            seconds as nat,
            round as nat,
            credits@,
            context@,
        ),
{
    let what = if stopping {
        "Stopping".to_owned()
    } else {
        match tool {
            Some(name) => cat2("Running ", name.as_str()),
            None => verb_at(tick).to_owned(),
        }
    };
    let wave = shimmer(cat2(what.as_str(), "…").as_str(), tick);
    let mut row = row1(bold(cat2(spin(tick), " ").as_str(), Tone::Blue));
    let ghost first = row.deep_view();
    let ghost all = wave.deep_view();
    let mut i: usize = 0;
    assert(first + all.take(0) =~= first);
    while i < wave.len()
        invariant
            i <= wave@.len(),
            all == wave.deep_view(),
            row.deep_view() == first + all.take(i as int),
        decreases wave.len() - i,
    {
        let ghost before = row.deep_view();
        let piece = Styled {
            text: wave[i].text.clone(),
            tone: wave[i].tone,
            bold: wave[i].bold,
            italic: wave[i].italic,
        };
        row.push(piece);
        assert(row.deep_view() =~= before.push(piece@));
        assert(all[i as int] == piece@);
        assert(row.deep_view() =~= first + all.take(i + 1));
        i += 1;
    }
    assert(all.take(i as int) =~= all);
    let head = cat5(
        " (",
        number_text(seconds).as_str(),
        "s · round ",
        number_text(round as u64).as_str(),
        " · ",
    );
    let text = cat5(head.as_str(), credits, " credits", context, " · esc to interrupt)");
    let ghost before = row.deep_view();
    let last = toned(text.as_str(), Tone::Dim);
    row.push(last);
    assert(row.deep_view() =~= before.push(last@));
    row
}

/// Lines broken at a width, one after the other.
pub open spec fn all_wrapped(rows: Seq<Seq<char>>, width: nat) -> Seq<Seq<char>>
    decreases rows.len(),
{
    if rows.len() == 0 {
        Seq::empty()
    } else {
        all_wrapped(rows.drop_last(), width) + wrapped(rows.last(), width)
    }
}

/// The last lines of what the model writes, or of what it thinks where it writes nothing.
pub open spec fn tail_shown(pending: Seq<char>, reasoning: Seq<char>, width: nat, max: nat) -> Seq<
    RowView,
> {
    if blank(pending) && blank(reasoning) {
        Seq::empty()
    } else {
        let text = if !blank(pending) {
            pending
        } else {
            reasoning
        };
        let all = all_wrapped(lines(text), less(width, 2));
        all.skip(less(all.len(), max) as int).map_values(
            |piece: Seq<char>|
                seq![
                    in_tone("  "@, Tone::Plain),
                    if !blank(pending) {
                        in_tone(piece, Tone::Text)
                    } else {
                        in_italics(piece, Tone::Dim)
                    },
                ],
        )
    }
}

fn wrap_all(text: &str, width: usize) -> (r: Vec<String>)
    ensures
        texts(r@) == all_wrapped(lines(text@), width as nat),
{
    let all = split_lines(text);
    let ghost views = texts(all@);
    let mut r: Vec<String> = Vec::new();
    let mut i: usize = 0;
    assert(texts(r@) =~= Seq::empty());
    while i < all.len()
        invariant
            i <= all@.len(),
            views == texts(all@),
            texts(r@) == all_wrapped(views.take(i as int), width as nat),
        decreases all.len() - i,
    {
        let ghost head = views.take(i + 1);
        assert(head.drop_last() =~= views.take(i as int));
        assert(head.last() == all@[i as int]@);
        let pieces = wrap(all[i].as_str(), width);
        let ghost before = texts(r@);
        let ghost more = texts(pieces@);
        let mut k: usize = 0;
        assert(before + more.take(0) =~= before);
        while k < pieces.len()
            invariant
                k <= pieces@.len(),
                more == texts(pieces@),
                texts(r@) == before + more.take(k as int),
            decreases pieces.len() - k,
        {
            let ghost now = texts(r@);
            r.push(pieces[k].clone());
            assert(texts(r@) =~= now.push(pieces@[k as int]@));
            assert(texts(r@) =~= before + more.take(k + 1));
            k += 1;
        }
        assert(more.take(k as int) =~= more);
        i += 1;
    }
    assert(views.take(i as int) =~= views);
    r
}

/// The last lines of what the model writes, or of what it thinks where it writes nothing.
pub fn tail_rows(pending: &str, reasoning: &str, width: usize, max: usize) -> (r: Vec<Row>)
    ensures
        r.deep_view() == tail_shown(pending@, reasoning@, width as nat, max as nat),
{
    let writes = !is_blank(pending);
    if !writes && is_blank(reasoning) {
        return no_rows();
    }
    let text = if writes {
        pending
    } else {
        reasoning
    };
    let all = wrap_all(text, minus(width, 2));
    let ghost views = texts(all@);
    assert(views.len() == all@.len());
    let from = minus(all.len(), max);
    let ghost expected = tail_shown(pending@, reasoning@, width as nat, max as nat);
    let mut rows = no_rows();
    let mut i: usize = from;
    assert(expected.len() == views.len() - from);
    assert(rows.deep_view() =~= expected.take(0));
    while i < all.len()
        invariant
            from <= i <= all@.len(),
            views == texts(all@),
            expected.len() == views.len() - from,
            forall|k: int|
                0 <= k < expected.len() ==> #[trigger] expected[k] == seq![
                    in_tone("  "@, Tone::Plain),
                    if writes {
                        in_tone(views[from + k], Tone::Text)
                    } else {
                        in_italics(views[from + k], Tone::Dim)
                    },
                ],
            rows.deep_view() == expected.take(i - from),
        decreases all.len() - i,
    {
        assert(views[i as int] == all@[i as int]@);
        let piece = if writes {
            toned(all[i].as_str(), Tone::Text)
        } else {
            italic(all[i].as_str(), Tone::Dim)
        };
        add_row(&mut rows, row2(toned("  ", Tone::Plain), piece));
        assert(expected[i - from] == rows.deep_view().last());
        assert(rows.deep_view() =~= expected.take(i - from + 1));
        i += 1;
    }
    assert(expected.take(i - from) =~= expected);
    rows
}

// ---------------------------------------------------------------------------------------------
// Laws
// ---------------------------------------------------------------------------------------------

/// The list of models shows those that match, in their order from the first that is shown, and
/// marks the selected one alone.
pub proof fn lists_show_the_models_that_match(
    eligible: Seq<ModelSummary>,
    filtered: Seq<int>,
    query: Seq<char>,
    selected: nat,
    offset: nat,
    current: Seq<char>,
    width: nat,
    height: nat,
    i: int,
)
    requires
        0 <= i,
        offset + i < filtered.len(),
        i + 2 < height,
    ensures
        ({
            let rows = list_shown(eligible, filtered, query, selected, offset, current, width, height);
            let model = eligible[filtered[offset + i]];
            &&& rows.len() <= height
            &&& i + 1 < rows.len()
            &&& rows[i + 1][0].text == "❯ "@ <==> offset + i == selected
            &&& rows[i + 1][1].text == shortened(model.display_name@, width / 2)
            &&& has_text(rows[i + 1].last().text, model.model_id@)
            &&& rows[i + 1].len() == 4 <==> model.model_id@ == current
        }),
{
    let rows = list_shown(eligible, filtered, query, selected, offset, current, width, height);
    let model = eligible[filtered[offset + i]];
    assert(rows[i + 1] == model_shown(model, offset + i == selected, current, width));
    let details = model_details(model);
    reveal_strlit("❯ ");
    reveal_strlit("  ");
    assert("❯ "@[0] != "  "@[0]);
    assert(details.subrange(2, 2 + model.model_id@.len() as int) =~= model.model_id@);
    assert(occurs_at(details, model.model_id@, 2));
    assert(rows[i + 1].last().text == details);
}

/// The panel that asks for permission says first what is asked for and last which keys answer,
/// where the screen has room for both and a warning; a warning is never left out.
pub proof fn permissions_say_what_is_asked(d: ToolPermissionDescription, width: nat, height: nat)
    requires
        height >= 3,
    ensures
        ({
            let rows = permission_shown(d, width, height);
            &&& rows.len() <= height
            &&& rows[0][0].text == shortened(d.summary@, width)
            &&& rows.last() == permission_keys()
            &&& d.warning is Some ==> rows[1][0].text == shortened(d.warning->0@, width)
                && rows[1][0].tone == Tone::Red
        }),
{
    let rows = permission_shown(d, width, height);
    let asked = seq![seq![in_bold(shortened(d.summary@, width), Tone::Bright)]];
    let warned = match d.warning {
        Some(text) => asked.push(seq![in_tone(shortened(text@, width), Tone::Red)]),
        None => asked,
    };
    assert(warned.len() <= 2);
    assert(rows.take(warned.len() as int) =~= warned);
    assert(rows[0] == rows.take(warned.len() as int)[0]);
    if d.warning is Some {
        assert(rows[1] == rows.take(2)[1]);
    }
}

/// A preview is shown from its first line on, in order.
pub proof fn previews_are_shown_from_their_start(
    d: ToolPermissionDescription,
    width: nat,
    height: nat,
    i: int,
)
    requires
        d.preview is Some,
        d.warning is None,
        0 <= i < lines(d.preview->0@).len(),
        i + 2 < height,
    ensures
        permission_shown(d, width, height)[i + 1][0].text == shortened(
            lines(d.preview->0@)[i],
            width,
        ),
{
    let asked = seq![seq![in_bold(shortened(d.summary@, width), Tone::Bright)]];
    let rows = lines(d.preview->0@).map_values(
        |line: Seq<char>| seq![in_tone(shortened(line, width), Tone::Dim)],
    );
    let shown = asked + first_rows(rows, less(height, 2));
    assert(shown[i + 1] == rows[i]);
    assert(permission_shown(d, width, height) == first_rows(shown.push(permission_keys()), height));
}

/// The prompt line shows a part of the prompt as it was typed, and all of it where there is room.
pub proof fn what_is_typed_is_shown(chars: Seq<char>, cursor: nat, width: nat)
    requires
        cursor <= chars.len(),
        chars.len() > 0,
    ensures
        ({
            let start = first_shown(chars.len(), cursor, width) as int;
            let text = input_row(chars, cursor, width)[1].text;
            &&& text.len() <= line_room(width)
            &&& start + text.len() <= chars.len()
            &&& text == chars.subrange(start, start + text.len())
            &&& chars.len() < line_room(width) ==> text == chars
        }),
{
    let text = input_row(chars, cursor, width)[1].text;
    let start = first_shown(chars.len(), cursor, width) as int;
    assert(text =~= chars.subrange(start, start + text.len()));
    if chars.len() < line_room(width) {
        assert(text =~= chars);
    }
}

/// Each option of a question has its row with its number, in their order, and is marked as chosen
/// where it is; of the options before the marked one nothing more is shown.
pub proof fn options_are_shown_in_order(m: PromptView, width: nat, height: nat, n: int)
    requires
        0 < n <= m.question().options.len(),
        m.editing_other || n - 1 <= m.cursor,
    ensures
        option_rows(m, width, height, n - 1).is_prefix_of(option_rows(m, width, height, n)),
        option_rows(m, width, height, n).len() > n,
        option_rows(m, width, height, n)[n].len() == 3,
        option_rows(m, width, height, n)[n][2].text == shortened(
            m.question().options[n - 1].label,
            less(width, 10),
        ),
        has_text(option_rows(m, width, height, n)[n][1].text, decimal(n as nat)),
        option_rows(m, width, height, n)[n][1].tone == Tone::Green <==> m.draft().selected.contains(
            m.question().options[n - 1].id,
        ),
        m.editing_other || n - 1 < m.cursor ==> option_rows(m, width, height, n).len() == n + 1,
    decreases n,
{
    if n > 1 {
        options_are_shown_in_order(m, width, height, n - 1);
    } else {
        assert(option_rows(m, width, height, 0).len() == 1);
    }
    let made = m.draft().selected.contains(m.question().options[n - 1].id);
    let mark = if made {
        "◉"@
    } else {
        "○"@
    };
    let number = decimal(n as nat);
    let text = mark + " "@ + number + ". "@;
    let at = mark.len() + " "@.len() as int;
    assert(text.subrange(at, at + number.len() as int) =~= number);
    assert(occurs_at(text, number, at));
    assert(choice_number(made, n as nat).text == text);
}

/// While a turn runs the last lines of what is written are shown, in their order and at most as
/// many as there is room for.
pub proof fn tails_show_the_end(pending: Seq<char>, reasoning: Seq<char>, width: nat, max: nat, i: int)
    requires
        !blank(pending),
        0 <= i < max,
        i < all_wrapped(lines(pending), less(width, 2)).len(),
    ensures
        ({
            let all = all_wrapped(lines(pending), less(width, 2));
            let rows = tail_shown(pending, reasoning, width, max);
            &&& rows.len() <= max
            &&& i < rows.len()
            &&& rows[rows.len() - 1 - i][1].text == all[all.len() - 1 - i]
        }),
{
}

} // verus!
