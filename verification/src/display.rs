//! What is written on the screen: rows of styled text.
use crate::config::PermissionMode;
use crate::json::{json_in, member, parse_json, text_in, Json, JsonView};
use crate::layout::{
    all_solid, shortened, solid, tabs_expanded, truncate_line, wrap, wrapped,
    wrapping_keeps_the_text,
};
use crate::loop_runner::AgentStopReason;
use crate::text::{
    begins_with, blank, cat2, cat3, cat4, cat5, char_replaced, decimal, finishes_with, has_text,
    is_blank, join, joined, lines, number_text, occurs_at, pad_end, padded_end, replace_char,
    split_lines, starts_with, texts, trim, trim_end, trimmed, trimmed_end,
};
use crate::types::SourceCitation;
use vstd::prelude::*;

verus! {

/// The colours of the screen.
#[derive(Debug, Clone, Copy, PartialEq, Eq, Structural)]
pub enum Tone {
    /// The colour that the terminal has.
    Plain,
    Text,
    Bright,
    Dim,
    Blue,
    Green,
    Red,
    Yellow,
    Purple,
    Cyan,
}

/// A piece of text in a style.
#[derive(Debug, Clone, PartialEq, Eq)]
pub struct Styled {
    pub text: String,
    pub tone: Tone,
    pub bold: bool,
    pub italic: bool,
}

/// The mathematical value of a [`Styled`].
pub struct StyledView {
    pub text: Seq<char>,
    pub tone: Tone,
    pub bold: bool,
    pub italic: bool,
}

impl View for Styled {
    type V = StyledView;

    open spec fn view(&self) -> StyledView {
        StyledView { text: self.text@, tone: self.tone, bold: self.bold, italic: self.italic }
    }
}

impl DeepView for Styled {
    type V = StyledView;

    open spec fn deep_view(&self) -> StyledView {
        self@
    }
}

/// A row of the screen.
pub type Row = Vec<Styled>;

/// The mathematical value of a row.
pub type RowView = Seq<StyledView>;

/// Text in a colour.
pub open spec fn in_tone(text: Seq<char>, tone: Tone) -> StyledView {
    StyledView { text, tone, bold: false, italic: false }
}

/// Bold text in a colour.
pub open spec fn in_bold(text: Seq<char>, tone: Tone) -> StyledView {
    StyledView { text, tone, bold: true, italic: false }
}

/// Slanted text in a colour.
pub open spec fn in_italics(text: Seq<char>, tone: Tone) -> StyledView {
    StyledView { text, tone, bold: false, italic: true }
}

/// Text in a colour.
pub fn toned(text: &str, tone: Tone) -> (r: Styled)
    ensures
        r@ == in_tone(text@, tone),
{
    Styled { text: text.to_owned(), tone, bold: false, italic: false }
}

/// Bold text in a colour.
pub fn bold(text: &str, tone: Tone) -> (r: Styled)
    ensures
        r@ == in_bold(text@, tone),
{
    Styled { text: text.to_owned(), tone, bold: true, italic: false }
}

/// Slanted text in a colour.
pub fn italic(text: &str, tone: Tone) -> (r: Styled)
    ensures
        r@ == in_italics(text@, tone),
{
    Styled { text: text.to_owned(), tone, bold: false, italic: true }
}

/// A row of one piece.
pub fn row1(a: Styled) -> (r: Row)
    ensures
        r.deep_view() == seq![a@],
{
    let mut r: Row = Vec::new();
    r.push(a);
    assert(r.deep_view() =~= seq![a@]);
    r
}

/// A row of two pieces.
pub fn row2(a: Styled, b: Styled) -> (r: Row)
    ensures
        r.deep_view() == seq![a@, b@],
{
    let mut r: Row = Vec::new();
    r.push(a);
    r.push(b);
    assert(r.deep_view() =~= seq![a@, b@]);
    r
}

/// A row of three pieces.
pub fn row3(a: Styled, b: Styled, c: Styled) -> (r: Row)
    ensures
        r.deep_view() == seq![a@, b@, c@],
{
    let mut r: Row = Vec::new();
    r.push(a);
    r.push(b);
    r.push(c);
    assert(r.deep_view() =~= seq![a@, b@, c@]);
    r
}

/// Puts a row below others.
pub fn add_row(rows: &mut Vec<Row>, row: Row)
    ensures
        final(rows).deep_view() == old(rows).deep_view().push(row.deep_view()),
{
    let ghost before = rows.deep_view();
    rows.push(row);
    assert(rows.deep_view() =~= before.push(row.deep_view()));
}

/// No rows.
pub fn no_rows() -> (r: Vec<Row>)
    ensures
        r.deep_view() == Seq::<RowView>::empty(),
{
    let r: Vec<Row> = Vec::new();
    assert(r.deep_view() =~= Seq::empty());
    r
}

/// One empty row.
pub fn empty_row() -> (r: Vec<Row>)
    ensures
        r.deep_view() == seq![Seq::<StyledView>::empty()],
{
    let mut r = no_rows();
    let row: Row = Vec::new();
    assert(row.deep_view() =~= Seq::empty());
    add_row(&mut r, row);
    assert(r.deep_view() =~= seq![Seq::<StyledView>::empty()]);
    r
}

// ---------------------------------------------------------------------------------------------
// Notes, prompts and help
// ---------------------------------------------------------------------------------------------

/// The rows of a note: an empty one, then its lines behind a mark.
pub open spec fn note_shown(text: Seq<char>, tone: Tone, width: nat) -> Seq<RowView> {
    let pieces = wrapped(
        text,
        if width > 4 {
            (width - 4) as nat
        } else {
            0
        },
    );
    seq![Seq::<StyledView>::empty()] + Seq::new(
        pieces.len(),
        |i: int|
            seq![
                in_tone("  "@, Tone::Plain),
                in_tone(
                    if i == 0 {
                        "◆ "@
                    } else {
                        "  "@
                    },
                    tone,
                ),
                in_tone(pieces[i], tone),
            ],
    )
}

/// The rows of a note.
pub fn note_rows(text: &str, tone: Tone, width: usize) -> (r: Vec<Row>)
    ensures
        r.deep_view() == note_shown(text@, tone, width as nat),
{
    let pieces = wrap(
        text,
        if width > 4 {
            width - 4
        } else {
            0
        },
    );
    let ghost all = texts(pieces@);
    let ghost expected = note_shown(text@, tone, width as nat);
    let mut rows = empty_row();
    let mut i: usize = 0;
    assert(rows.deep_view() =~= expected.take(1));
    while i < pieces.len()
        invariant
            i <= pieces@.len(),
            all == texts(pieces@),
            expected.len() == all.len() + 1,
            forall|k: int|
                0 <= k < all.len() ==> #[trigger] expected[k + 1] == seq![
                    in_tone("  "@, Tone::Plain),
                    in_tone(
                        if k == 0 {
                            "◆ "@
                        } else {
                            "  "@
                        },
                        tone,
                    ),
                    in_tone(all[k], tone),
                ],
            rows.deep_view() == expected.take(i + 1),
        decreases pieces.len() - i,
    {
        assert(all[i as int] == pieces@[i as int]@);
        let bullet = if i == 0 {
            "◆ "
        } else {
            "  "
        };
        add_row(
            &mut rows,
            row3(toned("  ", Tone::Plain), toned(bullet, tone), toned(pieces[i].as_str(), tone)),
        );
        assert(expected[i + 1] == rows.deep_view().last());
        assert(rows.deep_view() =~= expected.take(i + 2));
        i += 1;
    }
    assert(expected.take(i + 1) =~= expected);
    rows
}

/// The rows of a prompt that the user sent.
pub open spec fn prompt_shown(prompt: Seq<char>, width: nat) -> Seq<RowView> {
    let pieces = wrapped(
        prompt,
        if width > 2 {
            (width - 2) as nat
        } else {
            0
        },
    );
    seq![Seq::<StyledView>::empty()] + Seq::new(
        pieces.len(),
        |i: int|
            seq![
                in_bold(
                    if i == 0 {
                        "❯ "@
                    } else {
                        "  "@
                    },
                    Tone::Green,
                ),
                in_bold(pieces[i], Tone::Bright),
            ],
    )
}

/// The rows of a prompt that the user sent.
pub fn prompt_rows(prompt: &str, width: usize) -> (r: Vec<Row>)
    ensures
        r.deep_view() == prompt_shown(prompt@, width as nat),
{
    let pieces = wrap(
        prompt,
        if width > 2 {
            width - 2
        } else {
            0
        },
    );
    let ghost all = texts(pieces@);
    let ghost expected = prompt_shown(prompt@, width as nat);
    let mut rows = empty_row();
    let mut i: usize = 0;
    assert(rows.deep_view() =~= expected.take(1));
    while i < pieces.len()
        invariant
            i <= pieces@.len(),
            all == texts(pieces@),
            expected.len() == all.len() + 1,
            forall|k: int|
                0 <= k < all.len() ==> #[trigger] expected[k + 1] == seq![
                    in_bold(
                        if k == 0 {
                            "❯ "@
                        } else {
                            "  "@
                        },
                        Tone::Green,
                    ),
                    in_bold(all[k], Tone::Bright),
                ],
            rows.deep_view() == expected.take(i + 1),
        decreases pieces.len() - i,
    {
        assert(all[i as int] == pieces@[i as int]@);
        let head = if i == 0 {
            "❯ "
        } else {
            "  "
        };
        add_row(
            &mut rows,
            row2(bold(head, Tone::Green), bold(pieces[i].as_str(), Tone::Bright)),
        );
        assert(expected[i + 1] == rows.deep_view().last());
        assert(rows.deep_view() =~= expected.take(i + 2));
        i += 1;
    }
    assert(expected.take(i + 1) =~= expected);
    rows
}

/// A row of the help: a command and what it does.
pub open spec fn help_row(command: Seq<char>, help: Seq<char>) -> RowView {
    seq![in_tone("  "@ + padded_end(command, 17), Tone::Blue), in_tone(help, Tone::Text)]
}

fn add_help(rows: &mut Vec<Row>, command: &str, help: &str)
    ensures
        final(rows).deep_view() == old(rows).deep_view().push(help_row(command@, help@)),
{
    let head = cat2("  ", pad_end(command, 17).as_str());
    add_row(rows, row2(toned(head.as_str(), Tone::Blue), toned(help, Tone::Text)));
}

/// The rows of the help.
pub open spec fn help_shown() -> Seq<RowView> {
    seq![
        Seq::<StyledView>::empty(),
        help_row("/help"@, "Show this help"@),
        help_row("shift+tab"@, "Cycle Manual, Accept edits, Plan, and Auto"@),
        help_row("/model [id]"@, "Pick a model (searchable) or set one by id"@),
        help_row("/cost"@, "Show credits spent in this session"@),
        help_row("/clear"@, "Clear the conversation history"@),
        help_row("/compact"@, "Summarize the context to free space"@),
        help_row("/diff"@, "Show native file changes from the latest turn"@),
        help_row("/undo"@, "Undo native file changes from the latest turn"@),
        help_row("/web on|off"@, "Enable or disable model-controlled web search"@),
        help_row("/init [--force]"@, "Generate RONIN.md for this workspace"@),
        help_row("/exit"@, "Quit (ctrl+c or ctrl+d also work)"@),
    ]
}

/// The rows of the help.
pub fn help_rows() -> (r: Vec<Row>)
    ensures
        r.deep_view() == help_shown(),
{
    let mut rows = empty_row();
    add_help(&mut rows, "/help", "Show this help");
    add_help(&mut rows, "shift+tab", "Cycle Manual, Accept edits, Plan, and Auto");
    add_help(&mut rows, "/model [id]", "Pick a model (searchable) or set one by id");
    add_help(&mut rows, "/cost", "Show credits spent in this session");
    add_help(&mut rows, "/clear", "Clear the conversation history");
    add_help(&mut rows, "/compact", "Summarize the context to free space");
    add_help(&mut rows, "/diff", "Show native file changes from the latest turn");
    add_help(&mut rows, "/undo", "Undo native file changes from the latest turn");
    add_help(&mut rows, "/web on|off", "Enable or disable model-controlled web search");
    add_help(&mut rows, "/init [--force]", "Generate RONIN.md for this workspace");
    add_help(&mut rows, "/exit", "Quit (ctrl+c or ctrl+d also work)");
    assert(rows.deep_view() =~= help_shown());
    rows
}

/// The colour of a mode.
pub open spec fn tone_of(mode: PermissionMode) -> Tone {
    match mode {
        PermissionMode::Default => Tone::Text,
        PermissionMode::AcceptEdits => Tone::Yellow,
        PermissionMode::Plan => Tone::Purple,
        PermissionMode::Auto => Tone::Green,
        PermissionMode::Yolo => Tone::Red,
    }
}

/// The colour of a mode.
pub fn mode_color(mode: PermissionMode) -> (r: Tone)
    ensures
        r == tone_of(mode),
{
    match mode {
        PermissionMode::Default => Tone::Text,
        PermissionMode::AcceptEdits => Tone::Yellow,
        PermissionMode::Plan => Tone::Purple,
        PermissionMode::Auto => Tone::Green,
        PermissionMode::Yolo => Tone::Red,
    }
}

/// A row of the banner: a label and a value.
pub open spec fn banner_row(label: Seq<char>, value: Seq<char>, tone: Tone) -> RowView {
    seq![in_tone(label, Tone::Dim), in_tone(value, tone)]
}

/// A session that goes on, as the banner says it: its short id, its messages and what it cost.
#[derive(Debug, PartialEq, Eq)]
pub struct Resumed {
    pub short_id: String,
    pub messages: u64,
    pub credits: String,
}

/// What the banner says of a session that goes on.
pub open spec fn resumed_text(s: Resumed) -> Seq<char> {
    "resumed "@ + s.short_id@ + " · "@ + decimal(s.messages as nat) + " turns · "@ + s.credits@
        + " credits"@
}

/// The rows of the banner.
pub open spec fn banner_shown(
    version: Seq<char>,
    model: Seq<char>,
    cwd: Seq<char>,
    session: Option<Resumed>,
    mode: PermissionMode,
    dangerous: bool,
) -> Seq<RowView> {
    let first = seq![
        Seq::<StyledView>::empty(),
        seq![
            in_bold("◆ "@, Tone::Blue),
            in_bold("Ronin"@, Tone::Purple),
            in_tone("  v"@ + version, Tone::Dim),
        ],
        banner_row("  model      "@, model, Tone::Text),
        banner_row("  workspace  "@, cwd, Tone::Text),
    ];
    let second = match session {
        Some(s) => seq![banner_row("  session    "@, resumed_text(s), Tone::Text)],
        None => Seq::empty(),
    };
    let third = seq![
        banner_row(
            "  mode       "@,
            crate::composer::mode_texts(mode).0 + (if dangerous && mode == PermissionMode::Yolo {
                " (--dangerously-skip-permissions)"@
            } else {
                ""@
            }),
            tone_of(mode),
        ),
        seq![
            in_tone("  /help for commands · esc interrupts · ctrl+c quits"@, Tone::Dim),
        ],
    ];
    first + second + third
}

/// The rows of the banner.
pub fn banner_rows(
    version: &str,
    model: &str,
    cwd: &str,
    session: Option<Resumed>,
    mode: PermissionMode,
    dangerous: bool,
) -> (r: Vec<Row>)
    ensures
        r.deep_view() == banner_shown(version@, model@, cwd@, session, mode, dangerous),
{
    let ghost expected = banner_shown(version@, model@, cwd@, session, mode, dangerous);
    let mut rows = empty_row();
    add_row(
        &mut rows,
        row3(
            bold("◆ ", Tone::Blue),
            bold("Ronin", Tone::Purple),
            toned(cat2("  v", version).as_str(), Tone::Dim),
        ),
    );
    add_row(&mut rows, row2(toned("  model      ", Tone::Dim), toned(model, Tone::Text)));
    add_row(&mut rows, row2(toned("  workspace  ", Tone::Dim), toned(cwd, Tone::Text)));
    if let Some(s) = &session {
        let head = cat5(
            "resumed ",
            s.short_id.as_str(),
            " · ",
            number_text(s.messages).as_str(),
            " turns · ",
        );
        let text = cat3(head.as_str(), s.credits.as_str(), " credits");
        assert(text@ =~= resumed_text(*s));
        add_row(
            &mut rows,
            row2(toned("  session    ", Tone::Dim), toned(text.as_str(), Tone::Text)),
        );
    }
    let suffix = if dangerous && mode == PermissionMode::Yolo {
        " (--dangerously-skip-permissions)"
    } else {
        ""
    };
    let value = cat2(mode.label(), suffix);
    add_row(
        &mut rows,
        row2(toned("  mode       ", Tone::Dim), toned(value.as_str(), mode_color(mode))),
    );
    add_row(
        &mut rows,
        row1(toned("  /help for commands · esc interrupts · ctrl+c quits", Tone::Dim)),
    );
    assert(rows.deep_view() =~= expected);
    rows
}

/// The colour of a line of a diff.
pub open spec fn diff_tone(line: Seq<char>) -> Tone {
    if begins_with(line, "+++"@) || begins_with(line, "---"@) {
        Tone::Blue
    } else if begins_with(line, "+"@) {
        Tone::Green
    } else if begins_with(line, "-"@) {
        Tone::Red
    } else if begins_with(line, "@@"@) {
        Tone::Purple
    } else {
        Tone::Text
    }
}

/// The rows of a diff.
pub open spec fn diff_shown(diff: Seq<char>) -> Seq<RowView> {
    seq![Seq::<StyledView>::empty()] + lines(diff).map_values(
        |line: Seq<char>| seq![in_tone(line, diff_tone(line))],
    )
}

/// The rows of a diff.
pub fn diff_rows(diff: &str) -> (r: Vec<Row>)
    ensures
        r.deep_view() == diff_shown(diff@),
{
    let all = split_lines(diff);
    let ghost views = texts(all@);
    let ghost expected = diff_shown(diff@);
    let mut rows = empty_row();
    let mut i: usize = 0;
    assert(rows.deep_view() =~= expected.take(1));
    while i < all.len()
        invariant
            i <= all@.len(),
            views == texts(all@),
            views == lines(diff@),
            expected == diff_shown(diff@),
            rows.deep_view() == expected.take(i + 1),
        decreases all.len() - i,
    {
        let line = all[i].as_str();
        assert(views[i as int] == line@);
        let tone = if starts_with(line, "+++") || starts_with(line, "---") {
            Tone::Blue
        } else if starts_with(line, "+") {
            Tone::Green
        } else if starts_with(line, "-") {
            Tone::Red
        } else if starts_with(line, "@@") {
            Tone::Purple
        } else {
            Tone::Text
        };
        add_row(&mut rows, row1(toned(line, tone)));
        assert(expected[i + 1] == seq![in_tone(line@, diff_tone(line@))]);
        assert(rows.deep_view() =~= expected.take(i + 2));
        i += 1;
    }
    assert(expected.take(i + 1) =~= expected);
    rows
}

// ---------------------------------------------------------------------------------------------
// Answers and tools
// ---------------------------------------------------------------------------------------------

/// The rows of a line of an answer, where `open` says whether the answer has rows already.
pub open spec fn answer_shown(text: Seq<char>, open: bool, width: nat) -> Seq<RowView> {
    if !open && blank(text) {
        Seq::empty()
    } else {
        let pieces = wrapped(
            text,
            if width > 2 {
                (width - 2) as nat
            } else {
                0
            },
        );
        let first = if open {
            Seq::<RowView>::empty()
        } else {
            seq![Seq::<StyledView>::empty()]
        };
        first + Seq::new(
            pieces.len(),
            |i: int|
                seq![
                    if !open && i == 0 {
                        in_tone("● "@, Tone::Bright)
                    } else {
                        in_tone("  "@, Tone::Plain)
                    },
                    in_tone(pieces[i], Tone::Plain),
                ],
        )
    }
}

/// The rows of a line of an answer, where `open` says whether the answer has rows already.
pub fn answer_rows(text: &str, open: bool, width: usize) -> (r: Vec<Row>)
    ensures
        r.deep_view() == answer_shown(text@, open, width as nat),
{
    if !open && is_blank(text) {
        return no_rows();
    }
    let pieces = wrap(
        text,
        if width > 2 {
            width - 2
        } else {
            0
        },
    );
    let ghost all = texts(pieces@);
    let ghost expected = answer_shown(text@, open, width as nat);
    let ghost base: int = if open {
        0
    } else {
        1
    };
    let mut rows = if open {
        no_rows()
    } else {
        empty_row()
    };
    let mut i: usize = 0;
    assert(rows.deep_view() =~= expected.take(base));
    while i < pieces.len()
        invariant
            i <= pieces@.len(),
            all == texts(pieces@),
            base == (if open {
                0int
            } else {
                1
            }),
            expected.len() == all.len() + base,
            forall|k: int|
                0 <= k < all.len() ==> #[trigger] expected[k + base] == seq![
                    if !open && k == 0 {
                        in_tone("● "@, Tone::Bright)
                    } else {
                        in_tone("  "@, Tone::Plain)
                    },
                    in_tone(all[k], Tone::Plain),
                ],
            rows.deep_view() == expected.take(i + base),
        decreases pieces.len() - i,
    {
        assert(all[i as int] == pieces@[i as int]@);
        let head = if !open && i == 0 {
            toned("● ", Tone::Bright)
        } else {
            toned("  ", Tone::Plain)
        };
        add_row(&mut rows, row2(head, toned(pieces[i].as_str(), Tone::Plain)));
        assert(expected[i + base] == rows.deep_view().last());
        assert(rows.deep_view() =~= expected.take(i + base + 1));
        i += 1;
    }
    assert(expected.take(i + base) =~= expected);
    rows
}

/// The first of some texts of an object.
pub open spec fn first_text(value: JsonView, keys: Seq<Seq<char>>) -> Option<Seq<char>>
    decreases keys.len(),
{
    if keys.len() == 0 {
        None
    } else {
        match text_in(member(value, keys[0])) {
            Some(s) => Some(s),
            None => first_text(value, keys.skip(1)),
        }
    }
}

/// The arguments that say best what a call does.
pub open spec fn telling_keys() -> Seq<Seq<char>> {
    seq!["command"@, "file_path"@, "path"@, "pattern"@, "query"@, "url"@]
}

/// What a call does, from its arguments: `parsed` is their text read as JSON.
pub open spec fn summary_of(args: Seq<char>, parsed: Option<JsonView>) -> Seq<char> {
    let told = match parsed {
        Some(value) => first_text(value, telling_keys()),
        None => None,
    };
    shortened(
        trimmed(
            char_replaced(
                match told {
                    Some(s) => s,
                    None => args,
                },
                '\n',
                ' ',
            ),
        ),
        90,
    )
}

fn text_at<'a>(value: &'a Json, key: &str) -> (r: Option<&'a str>)
    ensures
        r.deep_view() == text_in(member(value@, key@)),
{
    match value.get(key) {
        Some(found) => found.as_str(),
        None => None,
    }
}

fn tell(value: &Json) -> (r: Option<&str>)
    ensures
        r.deep_view() == first_text(value@, telling_keys()),
{
    proof {
        reveal_with_fuel(first_text, 7);
        let k = telling_keys();
        assert(k.skip(1)[0] == k[1]);
        assert(k.skip(1).skip(1)[0] == k[2]);
        assert(k.skip(1).skip(1).skip(1)[0] == k[3]);
        assert(k.skip(1).skip(1).skip(1).skip(1)[0] == k[4]);
        assert(k.skip(1).skip(1).skip(1).skip(1).skip(1)[0] == k[5]);
    }
    if let Some(s) = text_at(value, "command") {
        return Some(s);
    }
    if let Some(s) = text_at(value, "file_path") {
        return Some(s);
    }
    if let Some(s) = text_at(value, "path") {
        return Some(s);
    }
    if let Some(s) = text_at(value, "pattern") {
        return Some(s);
    }
    if let Some(s) = text_at(value, "query") {
        return Some(s);
    }
    text_at(value, "url")
}

/// What a call does, from its arguments and what they hold as JSON.
pub fn summarize_args(args: &str, parsed: &Option<Json>) -> (r: String)
    ensures
        r@ == summary_of(args@, parsed.deep_view()),
{
    let mut text = args;
    if let Some(value) = parsed {
        if let Some(s) = tell(value) {
            text = s;
        }
    }
    truncate_line(trim(replace_char(text, '\n', ' ').as_str()).as_str(), 90)
}

/// What a call does, from its arguments.
pub fn tool_args_summary(args: &str) -> (r: String)
    ensures
        r@ == summary_of(args@, json_in(args@)),
{
    summarize_args(args, &parse_json(args))
}

/// The rows of a call that starts.
pub fn tool_start_rows(name: &str, summary: &str) -> (r: Vec<Row>)
    ensures
        r.deep_view() == seq![
            Seq::<StyledView>::empty(),
            seq![
                in_tone("● "@, Tone::Green),
                in_bold(name@, Tone::Blue),
                in_tone("("@ + summary@ + ")"@, Tone::Text),
            ],
        ],
{
    let mut rows = empty_row();
    let text = cat3("(", summary, ")");
    add_row(
        &mut rows,
        row3(toned("● ", Tone::Green), bold(name, Tone::Blue), toned(text.as_str(), Tone::Text)),
    );
    assert(rows.deep_view() =~= seq![
        Seq::<StyledView>::empty(),
        seq![
            in_tone("● "@, Tone::Green),
            in_bold(name@, Tone::Blue),
            in_tone("("@ + summary@ + ")"@, Tone::Text),
        ],
    ]);
    rows
}

/// The lines that are not blank.
pub open spec fn inked(rows: Seq<Seq<char>>) -> Seq<Seq<char>>
    decreases rows.len(),
{
    if rows.len() == 0 {
        Seq::empty()
    } else if blank(rows.last()) {
        inked(rows.drop_last())
    } else {
        inked(rows.drop_last()).push(rows.last())
    }
}

fn inked_lines(text: &str) -> (r: Vec<String>)
    ensures
        texts(r@) == inked(lines(text@)),
{
    let all = split_lines(text);
    let ghost views = texts(all@);
    let mut r: Vec<String> = Vec::new();
    let mut i: usize = 0;
    while i < all.len()
        invariant
            i <= all@.len(),
            views == texts(all@),
            texts(r@) == inked(views.take(i as int)),
        decreases all.len() - i,
    {
        let ghost head = views.take(i + 1);
        assert(head.drop_last() =~= views.take(i as int));
        assert(head.last() == all@[i as int]@);
        if !is_blank(all[i].as_str()) {
            let ghost before = texts(r@);
            r.push(all[i].clone());
            assert(texts(r@) =~= before.push(all@[i as int]@));
        }
        i += 1;
    }
    assert(views.take(i as int) =~= views);
    r
}

/// The rows of a call that ended: the first three lines of its result, and how many more it has.
pub open spec fn tool_end_shown(result: Seq<char>, error: bool, width: nat) -> Seq<RowView> {
    let tone = if error {
        Tone::Red
    } else {
        Tone::Dim
    };
    let all = inked(lines(result));
    let count: nat = if all.len() < 3 {
        all.len()
    } else {
        3
    };
    let room = if width > 7 {
        (width - 7) as nat
    } else {
        0
    };
    let none = if count == 0 {
        seq![
            seq![
                in_tone(
                    "  ⎿  "@ + if error {
                        "failed"@
                    } else {
                        "done"@
                    },
                    tone,
                ),
            ],
        ]
    } else {
        Seq::<RowView>::empty()
    };
    let shown = Seq::new(
        count,
        |i: int|
            seq![
                in_tone(
                    (if i == 0 {
                        "  ⎿  "@
                    } else {
                        "     "@
                    }) + shortened(trimmed_end(all[i]), room),
                    tone,
                ),
            ],
    );
    let more = if all.len() > count {
        seq![
            seq![
                in_italics("     … +"@ + decimal((all.len() - count) as nat) + " lines"@, Tone::Dim),
            ],
        ]
    } else {
        Seq::<RowView>::empty()
    };
    none + shown + more
}

/// The rows of a call that ended.
pub fn tool_end_rows(result: &str, error: bool, width: usize) -> (r: Vec<Row>)
    ensures
        r.deep_view() == tool_end_shown(result@, error, width as nat),
{
    let tone = if error {
        Tone::Red
    } else {
        Tone::Dim
    };
    let room: usize = if width > 7 {
        width - 7
    } else {
        0
    };
    let all = inked_lines(result);
    let ghost views = texts(all@);
    let count: usize = if all.len() < 3 {
        all.len()
    } else {
        3
    };
    let mut rows = no_rows();
    if count == 0 {
        let word = if error {
            "failed"
        } else {
            "done"
        };
        add_row(&mut rows, row1(toned(cat2("  ⎿  ", word).as_str(), tone)));
    }
    let ghost first = rows.deep_view();
    let ghost shown = Seq::new(
        count as nat,
        |i: int|
            seq![
                in_tone(
                    (if i == 0 {
                        "  ⎿  "@
                    } else {
                        "     "@
                    }) + shortened(trimmed_end(views[i]), room as nat),
                    tone,
                ),
            ],
    );
    let mut i: usize = 0;
    assert(first + shown.take(0) =~= first);
    while i < count
        invariant
            i <= count <= all@.len(),
            views == texts(all@),
            shown.len() == count,
            forall|k: int|
                0 <= k < count ==> #[trigger] shown[k] == seq![
                    in_tone(
                        (if k == 0 {
                            "  ⎿  "@
                        } else {
                            "     "@
                        }) + shortened(trimmed_end(views[k]), room as nat),
                        tone,
                    ),
                ],
            rows.deep_view() == first + shown.take(i as int),
        decreases count - i,
    {
        assert(views[i as int] == all@[i as int]@);
        let head = if i == 0 {
            "  ⎿  "
        } else {
            "     "
        };
        let line = truncate_line(trim_end(all[i].as_str()).as_str(), room);
        add_row(&mut rows, row1(toned(cat2(head, line.as_str()).as_str(), tone)));
        assert(shown[i as int] == rows.deep_view().last());
        assert(rows.deep_view() =~= first + shown.take(i + 1));
        i += 1;
    }
    assert(shown.take(i as int) =~= shown);
    assert(views.len() == all@.len());
    if all.len() > count {
        let text = cat3("     … +", number_text((all.len() - count) as u64).as_str(), " lines");
        add_row(&mut rows, row1(italic(text.as_str(), Tone::Dim)));
    }
    assert(rows.deep_view() =~= tool_end_shown(result@, error, width as nat));
    rows
}

/// The rows of a source.
pub open spec fn source_shown(source: SourceCitation, width: nat) -> Seq<RowView> {
    let room = if width > 8 {
        (width - 8) as nat
    } else {
        0
    };
    let label = if blank(source.title@) {
        source.url@
    } else {
        source.title@
    };
    seq![
        seq![
            in_tone("  ↗ "@, Tone::Cyan),
            in_tone(shortened(label, room), Tone::Cyan),
            in_tone("  "@ + source.url@, Tone::Dim),
        ],
    ]
}

/// The rows of a source.
pub fn source_rows(source: &SourceCitation, width: usize) -> (r: Vec<Row>)
    ensures
        r.deep_view() == source_shown(*source, width as nat),
{
    let room: usize = if width > 8 {
        width - 8
    } else {
        0
    };
    let label = if is_blank(source.title.as_str()) {
        source.url.as_str()
    } else {
        source.title.as_str()
    };
    let mut rows = no_rows();
    add_row(
        &mut rows,
        row3(
            toned("  ↗ ", Tone::Cyan),
            toned(truncate_line(label, room).as_str(), Tone::Cyan),
            toned(cat2("  ", source.url.as_str()).as_str(), Tone::Dim),
        ),
    );
    assert(rows.deep_view() =~= source_shown(*source, width as nat));
    rows
}

// ---------------------------------------------------------------------------------------------
// The end of a turn
// ---------------------------------------------------------------------------------------------

/// How a turn ended, as it is shown.
pub open spec fn ending(reason: Option<AgentStopReason>) -> Seq<char> {
    match reason {
        None => "complete"@,
        Some(AgentStopReason::Complete) => "complete"@,
        Some(AgentStopReason::MaxRounds) => "max rounds reached"@,
        Some(AgentStopReason::BudgetExhausted) => "credit budget exhausted"@,
        Some(AgentStopReason::ContextLimit) => "context limit reached"@,
        Some(AgentStopReason::Aborted) => "aborted"@,
        Some(AgentStopReason::Stopped) => "interrupted"@,
    }
}

/// An `s` where a number is not one.
pub open spec fn plural(n: nat) -> Seq<char> {
    if n == 1 {
        ""@
    } else {
        "s"@
    }
}

fn plural_end(n: u64) -> (r: &'static str)
    ensures
        r@ == plural(n as nat),
{
    if n == 1 {
        ""
    } else {
        "s"
    }
}

/// What of a turn is counted: its rounds, what it cost, how long it took and how full the context
/// is, the last three as they are shown.
#[derive(Debug, PartialEq, Eq)]
pub struct TurnCounts {
    pub round: u32,
    pub credits: String,
    pub seconds: u64,
    pub context: String,
}

/// The rows of the end of a turn.
pub open spec fn stats_shown(reason: Option<AgentStopReason>, counts: TurnCounts) -> Seq<RowView> {
    let ok = reason is None || reason == Some(AgentStopReason::Complete);
    seq![
        Seq::<StyledView>::empty(),
        seq![
            in_tone(
                "  "@ + (if ok {
                    "✔"@
                } else {
                    "◼"@
                }) + " "@,
                if ok {
                    Tone::Green
                } else {
                    Tone::Yellow
                },
            ),
            in_tone(
                ending(reason) + " · "@ + decimal(counts.round as nat) + " round"@ + plural(
                    counts.round as nat,
                ) + " · "@ + counts.credits@ + " credits · "@ + decimal(counts.seconds as nat)
                    + "s"@ + counts.context@,
                Tone::Dim,
            ),
        ],
    ]
}

/// The rows of the end of a turn.
pub fn stats_rows(reason: Option<AgentStopReason>, counts: &TurnCounts) -> (r: Vec<Row>)
    ensures
        r.deep_view() == stats_shown(reason, *counts),
{
    let word = match reason {
        None => "complete",
        Some(AgentStopReason::Complete) => "complete",
        Some(AgentStopReason::MaxRounds) => "max rounds reached",
        Some(AgentStopReason::BudgetExhausted) => "credit budget exhausted",
        Some(AgentStopReason::ContextLimit) => "context limit reached",
        Some(AgentStopReason::Aborted) => "aborted",
        Some(AgentStopReason::Stopped) => "interrupted",
    };
    let ok = match reason {
        None => true,
        Some(AgentStopReason::Complete) => true,
        _ => false,
    };
    let head = cat5(
        word,
        " · ",
        number_text(counts.round as u64).as_str(),
        " round",
        plural_end(counts.round as u64),
    );
    let middle = cat4(head.as_str(), " · ", counts.credits.as_str(), " credits · ");
    let text = cat4(
        middle.as_str(),
        number_text(counts.seconds).as_str(),
        "s",
        counts.context.as_str(),
    );
    let mark = if ok {
        cat3("  ", "✔", " ")
    } else {
        cat3("  ", "◼", " ")
    };
    let tone = if ok {
        Tone::Green
    } else {
        Tone::Yellow
    };
    let mut rows = empty_row();
    add_row(&mut rows, row2(toned(mark.as_str(), tone), toned(text.as_str(), Tone::Dim)));
    assert(rows.deep_view() =~= stats_shown(reason, *counts));
    rows
}

/// What a turn changed and ran, as it is told; nothing where it did neither.
pub open spec fn turn_summary(paths: Seq<Seq<char>>, commands: nat) -> Option<Seq<char>> {
    let edits = decimal(paths.len()) + " native file edit"@ + plural(paths.len()) + ": "@ + joined(
        paths,
        ", "@,
    );
    let runs = decimal(commands) + " command"@ + plural(commands) + " executed"@;
    if paths.len() == 0 && commands == 0 {
        None
    } else if commands == 0 {
        Some(edits)
    } else if paths.len() == 0 {
        Some(runs)
    } else {
        Some(edits + " · "@ + runs)
    }
}

/// What a turn changed and ran, as it is told; nothing where it did neither.
pub fn summarize_turn(paths: &Vec<String>, commands: usize) -> (r: Option<String>)
    ensures
        r.deep_view() == turn_summary(texts(paths@), commands as nat),
{
    assert(texts(paths@).len() == paths@.len());
    let edits = cat5(
        number_text(paths.len() as u64).as_str(),
        " native file edit",
        plural_end(paths.len() as u64),
        ": ",
        join(paths, ", ").as_str(),
    );
    let runs = cat4(
        number_text(commands as u64).as_str(),
        " command",
        plural_end(commands as u64),
        " executed",
    );
    if paths.len() == 0 && commands == 0 {
        None
    } else if commands == 0 {
        Some(edits)
    } else if paths.len() == 0 {
        Some(runs)
    } else {
        Some(cat3(edits.as_str(), " · ", runs.as_str()))
    }
}

// ---------------------------------------------------------------------------------------------
// Laws
// ---------------------------------------------------------------------------------------------

/// The texts at one place of some rows.
pub open spec fn column(rows: Seq<RowView>, first: int, place: int) -> Seq<Seq<char>> {
    Seq::new((rows.len() - first) as nat, |i: int| rows[first + i][place].text)
}

/// What the model wrote is shown whole and in its order, with nothing lost but spaces; a blank line
/// before the answer starts is not shown.
pub proof fn answers_are_shown_whole(text: Seq<char>, open: bool, width: nat)
    ensures
        !open && blank(text) ==> answer_shown(text, open, width).len() == 0,
        open ==> all_solid(column(answer_shown(text, open, width), 0, 1)) == solid(
            tabs_expanded(text),
        ),
        !open && !blank(text) ==> all_solid(column(answer_shown(text, open, width), 1, 1))
            == solid(tabs_expanded(text)),
{
    let room: nat = if width > 2 {
        (width - 2) as nat
    } else {
        0
    };
    wrapping_keeps_the_text(text, room);
    if open {
        assert(column(answer_shown(text, open, width), 0, 1) =~= wrapped(text, room));
    } else if !blank(text) {
        assert(column(answer_shown(text, open, width), 1, 1) =~= wrapped(text, room));
    }
}

/// What the user sent, and what the user is told, is shown whole and in its order, with nothing lost
/// but spaces.
pub proof fn prompts_and_notes_are_shown_whole(text: Seq<char>, tone: Tone, width: nat)
    ensures
        all_solid(column(prompt_shown(text, width), 1, 1)) == solid(tabs_expanded(text)),
        all_solid(column(note_shown(text, tone, width), 1, 2)) == solid(tabs_expanded(text)),
{
    let prompt_room: nat = if width > 2 {
        (width - 2) as nat
    } else {
        0
    };
    let note_room: nat = if width > 4 {
        (width - 4) as nat
    } else {
        0
    };
    wrapping_keeps_the_text(text, prompt_room);
    wrapping_keeps_the_text(text, note_room);
    assert(column(prompt_shown(text, width), 1, 1) =~= wrapped(text, prompt_room));
    assert(column(note_shown(text, tone, width), 1, 2) =~= wrapped(text, note_room));
}

/// Each line of a diff has its row, in their order, below an empty one. What was added is green and
/// what was taken away is red.
pub proof fn diffs_are_shown_line_by_line(diff: Seq<char>, i: int)
    requires
        0 <= i < lines(diff).len(),
    ensures
        diff_shown(diff).len() == lines(diff).len() + 1,
        diff_shown(diff)[i + 1].len() == 1,
        diff_shown(diff)[i + 1][0].text == lines(diff)[i],
        diff_shown(diff)[i + 1][0].tone == Tone::Green <==> begins_with(lines(diff)[i], "+"@)
            && !begins_with(lines(diff)[i], "+++"@),
        diff_shown(diff)[i + 1][0].tone == Tone::Red <==> begins_with(lines(diff)[i], "-"@)
            && !begins_with(lines(diff)[i], "---"@),
{
    let line = lines(diff)[i];
    reveal_strlit("+");
    reveal_strlit("-");
    reveal_strlit("+++");
    reveal_strlit("---");
    reveal_strlit("@@");
    if begins_with(line, "+"@) {
        assert(line.subrange(0, 1)[0] == line[0]);
        assert("+"@[0] == '+');
        if begins_with(line, "---"@) {
            assert(line.subrange(0, 3)[0] == line[0]);
            assert("---"@[0] == '-');
        }
    }
    if begins_with(line, "-"@) {
        assert(line.subrange(0, 1)[0] == line[0]);
        assert("-"@[0] == '-');
        if begins_with(line, "+++"@) {
            assert(line.subrange(0, 3)[0] == line[0]);
            assert("+++"@[0] == '+');
        }
    }
}

/// The lines that are told of a result are those that are not blank, in their order.
pub proof fn blank_lines_are_left_out(rows: Seq<Seq<char>>)
    ensures
        inked(rows) == rows.filter(|row: Seq<char>| !blank(row)),
    decreases rows.len(),
{
    reveal(Seq::filter);
    if rows.len() > 0 {
        blank_lines_are_left_out(rows.drop_last());
    }
}

/// Of the result of a call the first lines are told, three at most and in their order, each cut to
/// the width; how many more there are is told below them.
pub proof fn results_are_told_from_their_start(result: Seq<char>, error: bool, width: nat, i: int)
    requires
        0 <= i < 3,
        i < inked(lines(result)).len(),
    ensures
        ({
            let all = inked(lines(result));
            let rows = tool_end_shown(result, error, width);
            let room: nat = if width > 7 {
                (width - 7) as nat
            } else {
                0
            };
            &&& rows[i].len() == 1
            &&& finishes_with(rows[i][0].text, shortened(trimmed_end(all[i]), room))
            &&& rows[i][0].tone == if error {
                Tone::Red
            } else {
                Tone::Dim
            }
            &&& all.len() <= 3 ==> rows.len() == all.len()
            &&& all.len() > 3 ==> rows.len() == 4 && has_text(
                rows[3][0].text,
                decimal((all.len() - 3) as nat),
            )
        }),
{
    let all = inked(lines(result));
    let rows = tool_end_shown(result, error, width);
    let room: nat = if width > 7 {
        (width - 7) as nat
    } else {
        0
    };
    let told = shortened(trimmed_end(all[i]), room);
    let text = rows[i][0].text;
    assert(text.subrange(text.len() - told.len(), text.len() as int) =~= told);
    if all.len() > 3 {
        let number = decimal((all.len() - 3) as nat);
        let last = "     … +"@ + number + " lines"@;
        assert(rows[3][0].text == last);
        let n = "     … +"@.len() as int;
        assert(last.subrange(n, n + number.len()) =~= number);
        assert(occurs_at(last, number, n));
    }
}

/// A call is told by the first of its telling arguments that is a text.
pub proof fn the_first_telling_argument_counts(value: JsonView, keys: Seq<Seq<char>>, k: int)
    requires
        0 <= k < keys.len(),
        text_in(member(value, keys[k])) is Some,
        forall|i: int| 0 <= i < k ==> text_in(member(value, #[trigger] keys[i])) is None,
    ensures
        first_text(value, keys) == text_in(member(value, keys[k])),
    decreases k,
{
    if k > 0 {
        assert(text_in(member(value, keys[0])) is None);
        assert(keys.skip(1)[k - 1] == keys[k]);
        assert forall|i: int| 0 <= i < k - 1 implies text_in(
            member(value, #[trigger] keys.skip(1)[i]),
        ) is None by {
            assert(keys.skip(1)[i] == keys[i + 1]);
        }
        the_first_telling_argument_counts(value, keys.skip(1), k - 1);
    }
}

/// A source is shown with its address, whatever its title.
pub proof fn sources_are_shown_with_their_address(source: SourceCitation, width: nat)
    ensures
        source_shown(source, width).len() == 1,
        finishes_with(source_shown(source, width)[0].last().text, source.url@),
{
    let text = source_shown(source, width)[0].last().text;
    assert(text.subrange(text.len() - source.url@.len(), text.len() as int) =~= source.url@);
}

/// A turn that changed files names them, and one that ran commands counts them; one that did
/// neither says nothing.
pub proof fn turns_tell_what_they_did(paths: Seq<Seq<char>>, commands: nat)
    ensures
        turn_summary(paths, commands) is None <==> paths.len() == 0 && commands == 0,
        paths.len() > 0 ==> begins_with(turn_summary(paths, commands)->0, decimal(paths.len()))
            && has_text(turn_summary(paths, commands)->0, joined(paths, ", "@)),
        commands > 0 ==> has_text(turn_summary(paths, commands)->0, decimal(commands)),
{
    let all = turn_summary(paths, commands)->0;
    let count = decimal(paths.len());
    let names = joined(paths, ", "@);
    let before = count + " native file edit"@ + plural(paths.len()) + ": "@;
    let edits = before + names;
    if paths.len() > 0 {
        assert(all.subrange(0, count.len() as int) =~= count);
        let n = before.len() as int;
        assert(all.subrange(n, n + names.len()) =~= names);
        assert(occurs_at(all, names, n));
    }
    if commands > 0 {
        let number = decimal(commands);
        let n: int = if paths.len() == 0 {
            0
        } else {
            (edits + " · "@).len() as int
        };
        assert(all.subrange(n, n + number.len()) =~= number);
        assert(occurs_at(all, number, n));
    }
}

/// The banner says the version, the model, the workspace and the mode, in this order, and of a
/// session that goes on its id, its messages and its cost between them.
pub proof fn banners_say_what_runs(
    version: Seq<char>,
    model: Seq<char>,
    cwd: Seq<char>,
    session: Option<Resumed>,
    mode: PermissionMode,
    dangerous: bool,
)
    ensures
        ({
            let rows = banner_shown(version, model, cwd, session, mode, dangerous);
            &&& finishes_with(rows[1][2].text, version)
            &&& rows[2][1].text == model
            &&& rows[3][1].text == cwd
            &&& session is None ==> rows.len() == 6 && begins_with(
                rows[4][1].text,
                crate::composer::mode_texts(mode).0,
            )
            &&& session is Some ==> rows.len() == 7 && begins_with(
                rows[5][1].text,
                crate::composer::mode_texts(mode).0,
            ) && has_text(rows[4][1].text, session->0.short_id@) && has_text(
                rows[4][1].text,
                decimal(session->0.messages as nat),
            ) && has_text(rows[4][1].text, session->0.credits@)
        }),
{
    let rows = banner_shown(version, model, cwd, session, mode, dangerous);
    let head = rows[1][2].text;
    assert(head.subrange(head.len() - version.len(), head.len() as int) =~= version);
    let name = crate::composer::mode_texts(mode).0;
    let shown = rows[rows.len() - 2][1].text;
    assert(shown.subrange(0, name.len() as int) =~= name);
    if let Some(s) = session {
        let text = resumed_text(s);
        let a = "resumed "@.len() as int;
        let b = ("resumed "@ + s.short_id@ + " · "@).len() as int;
        let count = decimal(s.messages as nat);
        let c = ("resumed "@ + s.short_id@ + " · "@ + count + " turns · "@).len() as int;
        assert(text.subrange(a, a + s.short_id@.len()) =~= s.short_id@);
        assert(text.subrange(b, b + count.len()) =~= count);
        assert(text.subrange(c, c + s.credits@.len()) =~= s.credits@);
        assert(occurs_at(text, s.short_id@, a) && occurs_at(text, count, b) && occurs_at(
            text,
            s.credits@,
            c,
        ));
        assert(rows[4][1].text == text);
    }
}

/// The end of a turn is told with a tick exactly where the model was done, and with its rounds, its
/// cost and its time.
pub proof fn ends_of_turns_are_told(reason: Option<AgentStopReason>, counts: TurnCounts)
    ensures
        ({
            let rows = stats_shown(reason, counts);
            &&& rows.len() == 2
            &&& rows[1][0].tone == Tone::Green <==> reason is None || reason == Some(
                AgentStopReason::Complete,
            )
            &&& begins_with(rows[1][1].text, ending(reason))
            &&& has_text(rows[1][1].text, decimal(counts.round as nat))
            &&& has_text(rows[1][1].text, counts.credits@)
            &&& has_text(rows[1][1].text, decimal(counts.seconds as nat))
            &&& finishes_with(rows[1][1].text, counts.context@)
        }),
{
    let text = stats_shown(reason, counts)[1][1].text;
    let rounds = decimal(counts.round as nat);
    let seconds = decimal(counts.seconds as nat);
    let first = ending(reason) + " · "@;
    let second = first + rounds + " round"@ + plural(counts.round as nat) + " · "@;
    let third = second + counts.credits@ + " credits · "@;
    let a = first.len() as int;
    let b = second.len() as int;
    let c = third.len() as int;
    assert(text.subrange(0, ending(reason).len() as int) =~= ending(reason));
    assert(text.subrange(a, a + rounds.len()) =~= rounds);
    assert(text.subrange(b, b + counts.credits@.len()) =~= counts.credits@);
    assert(text.subrange(c, c + seconds.len()) =~= seconds);
    assert(occurs_at(text, rounds, a));
    assert(occurs_at(text, counts.credits@, b));
    assert(occurs_at(text, seconds, c));
    assert(text.subrange(text.len() - counts.context@.len(), text.len() as int)
        =~= counts.context@);
}

} // verus!
