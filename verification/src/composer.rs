//! The line in which the user writes a prompt.
use crate::config::{next_mode, PermissionMode};
use crate::keys::Key;
use crate::text::{blank, cat3, chars_of, is_blank, same, text_of_all, texts};
use vstd::prelude::*;

verus! {

/// What the user writes: the characters, the place in them, and the prompts before.
#[derive(Debug, PartialEq, Eq)]
pub struct Composer {
    pub chars: Vec<char>,
    pub cursor: usize,
    /// The prompt before that is shown.
    pub history_index: Option<usize>,
    /// What was written before a prompt before was shown.
    pub draft: Vec<char>,
    pub history: Vec<String>,
    pub mode: PermissionMode,
}

/// The mathematical value of a [`Composer`].
#[verifier::ext_equal]
pub struct ComposerView {
    pub chars: Seq<char>,
    pub cursor: int,
    pub history_index: Option<int>,
    pub draft: Seq<char>,
    pub history: Seq<Seq<char>>,
    pub mode: PermissionMode,
}

/// A place as an integer.
pub open spec fn place(i: Option<usize>) -> Option<int> {
    match i {
        Some(n) => Some(n as int),
        None => None,
    }
}

impl View for Composer {
    type V = ComposerView;

    open spec fn view(&self) -> ComposerView {
        ComposerView {
            chars: self.chars@,
            cursor: self.cursor as int,
            history_index: place(self.history_index),
            draft: self.draft@,
            history: texts(self.history@),
            mode: self.mode,
        }
    }
}

impl ComposerView {
    /// What holds of the line at all times: the place is in it, and the prompt before that is shown
    /// is one of those before.
    pub open spec fn wf(self) -> bool {
        &&& 0 <= self.cursor <= self.chars.len()
        &&& self.history_index matches Some(i) ==> 0 <= i < self.history.len()
    }
}

/// What comes of a key or of pasted text.
#[derive(Debug, PartialEq, Eq)]
pub enum ComposerStep {
    /// The user goes on writing.
    Continue,
    /// The user goes on writing and is told something for a while.
    Flash(String),
    /// The user sends what was written.
    Submit(String),
    /// The user leaves.
    Quit,
}

/// The mathematical value of a [`ComposerStep`].
pub enum StepView {
    Continue,
    Flash(Seq<char>),
    Submit(Seq<char>),
    Quit,
}

impl View for ComposerStep {
    type V = StepView;

    open spec fn view(&self) -> StepView {
        match self {
            ComposerStep::Continue => StepView::Continue,
            ComposerStep::Flash(s) => StepView::Flash(s@),
            ComposerStep::Submit(s) => StepView::Submit(s@),
            ComposerStep::Quit => StepView::Quit,
        }
    }
}

/// An empty line.
pub open spec fn started(history: Seq<Seq<char>>, mode: PermissionMode) -> ComposerView {
    ComposerView {
        chars: Seq::empty(),
        cursor: 0,
        history_index: None,
        draft: Seq::empty(),
        history,
        mode,
    }
}

/// The line with nothing in it.
pub open spec fn cleared(m: ComposerView) -> ComposerView {
    ComposerView { chars: Seq::empty(), cursor: 0, history_index: None, ..m }
}

/// The line with characters put in at the place.
pub open spec fn inserted(m: ComposerView, more: Seq<char>) -> ComposerView {
    ComposerView {
        chars: m.chars.take(m.cursor) + more + m.chars.skip(m.cursor),
        cursor: m.cursor + more.len(),
        ..m
    }
}

/// Text without line ends, which become spaces.
pub open spec fn on_one_line(s: Seq<char>) -> Seq<char> {
    s.map_values(
        |c: char|
            if c == '\n' || c == '\r' {
                ' '
            } else {
                c
            },
    )
}

/// The line after text was pasted.
pub open spec fn pasted(m: ComposerView, text: Seq<char>) -> ComposerView {
    inserted(m, on_one_line(text))
}

/// The start of the spaces that end at a place.
pub open spec fn before_spaces(s: Seq<char>, i: int) -> int
    decreases i,
{
    if i > 0 && s[i - 1] == ' ' {
        before_spaces(s, i - 1)
    } else {
        i
    }
}

/// The start of the word that ends at a place.
pub open spec fn before_word(s: Seq<char>, i: int) -> int
    decreases i,
{
    if i > 0 && s[i - 1] != ' ' {
        before_word(s, i - 1)
    } else {
        i
    }
}

/// The line without what stands from a place to the cursor.
pub open spec fn erased_from(m: ComposerView, from: int) -> ComposerView {
    ComposerView { chars: m.chars.take(from) + m.chars.skip(m.cursor), cursor: from, ..m }
}

/// The line that shows a text, with the place at its end.
pub open spec fn showing(m: ComposerView, text: Seq<char>, index: Option<int>) -> ComposerView {
    ComposerView { chars: text, cursor: text.len() as int, history_index: index, ..m }
}

/// The line that shows the prompt before the one it shows.
pub open spec fn earlier(m: ComposerView) -> ComposerView {
    if m.history.len() == 0 {
        m
    } else {
        match m.history_index {
            None => showing(
                ComposerView { draft: m.chars, ..m },
                m.history.last(),
                Some(m.history.len() - 1),
            ),
            Some(i) => {
                let next = if i == 0 {
                    0
                } else {
                    i - 1
                };
                showing(m, m.history[next], Some(next))
            },
        }
    }
}

/// The line that shows the prompt after the one it shows, and what was written after the last.
pub open spec fn later(m: ComposerView) -> ComposerView {
    match m.history_index {
        None => m,
        Some(i) => if i + 1 < m.history.len() {
            showing(m, m.history[i + 1], Some(i + 1))
        } else {
            showing(m, m.draft, None)
        },
    }
}

/// The prompts before, with one more: the same is not kept twice in a row.
pub open spec fn remembered(history: Seq<Seq<char>>, prompt: Seq<char>) -> Seq<Seq<char>> {
    if history.len() > 0 && history.last() == prompt {
        history
    } else {
        history.push(prompt)
    }
}

/// What the user is told of a mode.
pub open spec fn mode_flash(label: Seq<char>, description: Seq<char>) -> Seq<char> {
    label + " mode — "@ + description
}

/// The name of a mode and what it does, as they are shown.
pub open spec fn mode_texts(mode: PermissionMode) -> (Seq<char>, Seq<char>) {
    match mode {
        PermissionMode::Default => ("Manual"@, "ask before edits and commands"@),
        PermissionMode::AcceptEdits => (
            "Accept edits"@,
            "apply workspace edits; ask before commands"@,
        ),
        PermissionMode::Plan => ("Plan"@, "read and explore without changing files"@),
        PermissionMode::Auto => ("Auto"@, "run tools automatically within safety rules"@),
        PermissionMode::Yolo => ("Bypass permissions"@, "skip permission checks"@),
    }
}

/// The line after a character was typed while the control key is held.
pub open spec fn controlled(m: ComposerView, c: char) -> (ComposerView, StepView) {
    if c == 'c' {
        if m.chars.len() == 0 {
            (m, StepView::Quit)
        } else {
            (cleared(m), StepView::Flash("input cleared — ctrl+c again to quit"@))
        }
    } else if c == 'd' {
        if m.chars.len() == 0 {
            (m, StepView::Quit)
        } else {
            (m, StepView::Continue)
        }
    } else if c == 'u' {
        (erased_from(m, 0), StepView::Continue)
    } else if c == 'k' {
        (ComposerView { chars: m.chars.take(m.cursor), ..m }, StepView::Continue)
    } else if c == 'a' {
        (ComposerView { cursor: 0, ..m }, StepView::Continue)
    } else if c == 'e' {
        (ComposerView { cursor: m.chars.len() as int, ..m }, StepView::Continue)
    } else if c == 'w' {
        (
            erased_from(m, before_word(m.chars, before_spaces(m.chars, m.cursor))),
            StepView::Continue,
        )
    } else {
        (m, StepView::Continue)
    }
}

/// The line after a key, and what comes of it.
pub open spec fn keyed(m: ComposerView, key: Key, ctrl: bool) -> (ComposerView, StepView) {
    match key {
        Key::BackTab => {
            let mode = next_mode(m.mode);
            (
                ComposerView { mode, ..m },
                StepView::Flash(mode_flash(mode_texts(mode).0, mode_texts(mode).1)),
            )
        },
        Key::Enter => if blank(m.chars) {
            (m, StepView::Continue)
        } else {
            (
                ComposerView { history: remembered(m.history, m.chars), ..m },
                StepView::Submit(m.chars),
            )
        },
        Key::Char(c) => if ctrl {
            controlled(m, c)
        } else {
            (
                ComposerView { history_index: None, ..inserted(m, seq![c]) },
                StepView::Continue,
            )
        },
        Key::Escape => (cleared(m), StepView::Continue),
        Key::Backspace => if m.cursor > 0 {
            (erased_from(m, m.cursor - 1), StepView::Continue)
        } else {
            (m, StepView::Continue)
        },
        Key::Delete => if m.cursor < m.chars.len() {
            (ComposerView { chars: m.chars.remove(m.cursor), ..m }, StepView::Continue)
        } else {
            (m, StepView::Continue)
        },
        Key::Left => (
            ComposerView {
                cursor: if m.cursor > 0 {
                    m.cursor - 1
                } else {
                    0
                },
                ..m
            },
            StepView::Continue,
        ),
        Key::Right => (
            ComposerView {
                cursor: if m.cursor < m.chars.len() {
                    m.cursor + 1
                } else {
                    m.chars.len() as int
                },
                ..m
            },
            StepView::Continue,
        ),
        Key::Home => (ComposerView { cursor: 0, ..m }, StepView::Continue),
        Key::End => (ComposerView { cursor: m.chars.len() as int, ..m }, StepView::Continue),
        Key::Up => (earlier(m), StepView::Continue),
        Key::Down => (later(m), StepView::Continue),
        _ => (m, StepView::Continue),
    }
}

impl Composer {
    /// What holds of the line at all times.
    pub open spec fn wf(self) -> bool {
        self@.wf()
    }

    /// An empty line.
    pub fn new(history: Vec<String>, mode: PermissionMode) -> (r: Self)
        ensures
            r.wf(),
            r.history == history,
            r@ == started(texts(history@), mode),
    {
        Composer {
            chars: Vec::new(),
            cursor: 0,
            history_index: None,
            draft: Vec::new(),
            history,
            mode,
        }
    }

    fn insert(&mut self, c: char)
        requires
            old(self).wf(),
        ensures
            final(self).wf(),
            final(self)@ == inserted(old(self)@, seq![c]),
    {
        let ghost before = self@;
        let at = self.cursor;
        self.chars.insert(at, c);
        assert(self.chars.len() > at);
        self.cursor = at + 1;
        assert(self@.chars =~= before.chars.take(before.cursor) + seq![c] + before.chars.skip(
            before.cursor,
        ));
    }

    /// Takes pasted text.
    pub fn paste(&mut self, text: &str)
        requires
            old(self).wf(),
        ensures
            final(self).wf(),
            final(self)@ == pasted(old(self)@, text@),
    {
        let v = chars_of(text);
        let ghost before = self@;
        let ghost line = on_one_line(text@);
        let mut i: usize = 0;
        assert(inserted(before, line.take(0)) =~= before) by {
            assert(before.chars.take(before.cursor) + line.take(0) + before.chars.skip(
                before.cursor,
            ) =~= before.chars);
        }
        while i < v.len()
            invariant
                i <= v@.len(),
                v@ == text@,
                line == on_one_line(text@),
                before.wf(),
                self.wf(),
                self@ == inserted(before, line.take(i as int)),
            decreases v.len() - i,
        {
            let c = if v[i] == '\n' || v[i] == '\r' {
                ' '
            } else {
                v[i]
            };
            let ghost now = self@;
            self.insert(c);
            proof {
                assert(line[i as int] == c);
                let head = line.take(i as int);
                assert(line.take(i + 1) =~= head.push(c));
                assert(now.chars.take(now.cursor) =~= before.chars.take(before.cursor) + head);
                assert(now.chars.skip(now.cursor) =~= before.chars.skip(before.cursor));
                assert(self@.chars =~= before.chars.take(before.cursor) + line.take(i + 1)
                    + before.chars.skip(before.cursor));
                assert(self@ =~= inserted(before, line.take(i + 1)));
            }
            i += 1;
        }
        assert(line.take(i as int) =~= line);
    }

    fn erase_from(&mut self, from: usize)
        requires
            old(self).wf(),
            from <= old(self).cursor,
        ensures
            final(self).wf(),
            final(self)@ == erased_from(old(self)@, from as int),
    {
        let ghost before = self@;
        let tail = self.chars.split_off(self.cursor);
        self.chars.truncate(from);
        let mut i: usize = 0;
        assert(self.chars@ =~= before.chars.take(from as int) + tail@.take(0));
        while i < tail.len()
            invariant
                i <= tail@.len(),
                before.wf(),
                from <= before.cursor,
                self.chars@ == before.chars.take(from as int) + tail@.take(i as int),
                tail@ == before.chars.subrange(before.cursor, before.chars.len() as int),
                self.history_index == old(self).history_index,
                self.draft == old(self).draft,
                self.history == old(self).history,
                self.mode == old(self).mode,
                before == old(self)@,
            decreases tail.len() - i,
        {
            self.chars.push(tail[i]);
            assert(self.chars@ =~= before.chars.take(from as int) + tail@.take(i + 1));
            i += 1;
        }
        self.cursor = from;
        assert(self.chars@ =~= before.chars.take(from as int) + before.chars.skip(before.cursor));
    }

    fn clear(&mut self)
        requires
            old(self).wf(),
        ensures
            final(self).wf(),
            final(self)@ == cleared(old(self)@),
    {
        self.chars = Vec::new();
        self.cursor = 0;
        self.history_index = None;
    }

    fn show(&mut self, text: Vec<char>, index: Option<usize>)
        requires
            old(self).wf(),
            index matches Some(i) ==> i < old(self).history@.len(),
        ensures
            final(self).wf(),
            final(self)@ == showing(old(self)@, text@, place(index)),
    {
        self.cursor = text.len();
        self.chars = text;
        self.history_index = index;
    }

    fn show_earlier(&mut self)
        requires
            old(self).wf(),
        ensures
            final(self).wf(),
            final(self)@ == earlier(old(self)@),
    {
        let n = self.history.len();
        assert(self@.history.len() == n);
        if n == 0 {
            return ;
        }
        match self.history_index {
            None => {
                assert(self@.history.last() == self.history@[n - 1]@);
                let text = chars_of(self.history[n - 1].as_str());
                let mut draft: Vec<char> = Vec::new();
                core::mem::swap(&mut self.chars, &mut draft);
                self.draft = draft;
                self.cursor = 0;
                self.show(text, Some(n - 1));
            },
            Some(i) => {
                let next: usize = if i == 0 {
                    0
                } else {
                    i - 1
                };
                assert(self@.history[next as int] == self.history@[next as int]@);
                let text = chars_of(self.history[next].as_str());
                self.show(text, Some(next));
            },
        }
    }

    fn show_later(&mut self)
        requires
            old(self).wf(),
        ensures
            final(self).wf(),
            final(self)@ == later(old(self)@),
    {
        assert(self@.history.len() == self.history@.len());
        if let Some(i) = self.history_index {
            if i < self.history.len() - 1 {
                assert(self@.history[i + 1] == self.history@[i + 1]@);
                let text = chars_of(self.history[i + 1].as_str());
                self.show(text, Some(i + 1));
            } else {
                let text = text_of_all(&self.draft);
                let draft = chars_of(text.as_str());
                self.show(draft, None);
            }
        }
    }

    fn word_start(&self) -> (r: usize)
        requires
            self.wf(),
        ensures
            r == before_word(self@.chars, before_spaces(self@.chars, self@.cursor)),
            r <= self.cursor,
    {
        let mut i: usize = self.cursor;
        while i > 0 && self.chars[i - 1] == ' '
            invariant
                i <= self.cursor <= self.chars@.len(),
                before_spaces(self@.chars, self@.cursor) == before_spaces(self@.chars, i as int),
            decreases i,
        {
            i -= 1;
        }
        let ghost start = i as int;
        while i > 0 && self.chars[i - 1] != ' '
            invariant
                i <= start <= self.cursor <= self.chars@.len(),
                before_word(self@.chars, start) == before_word(self@.chars, i as int),
            decreases i,
        {
            i -= 1;
        }
        i
    }

    fn control(&mut self, c: char) -> (r: ComposerStep)
        requires
            old(self).wf(),
        ensures
            final(self).wf(),
            (final(self)@, r@) == controlled(old(self)@, c),
    {
        match c {
            'c' => {
                if self.chars.len() == 0 {
                    return ComposerStep::Quit;
                }
                self.clear();
                ComposerStep::Flash("input cleared — ctrl+c again to quit".to_owned())
            },
            'd' => {
                if self.chars.len() == 0 {
                    ComposerStep::Quit
                } else {
                    ComposerStep::Continue
                }
            },
            'u' => {
                self.erase_from(0);
                ComposerStep::Continue
            },
            'k' => {
                let ghost before = self@;
                let at = self.cursor;
                self.chars.truncate(at);
                assert(self@.chars =~= before.chars.take(before.cursor));
                ComposerStep::Continue
            },
            'a' => {
                self.cursor = 0;
                ComposerStep::Continue
            },
            'e' => {
                self.cursor = self.chars.len();
                ComposerStep::Continue
            },
            'w' => {
                let from = self.word_start();
                self.erase_from(from);
                ComposerStep::Continue
            },
            _ => ComposerStep::Continue,
        }
    }

    fn submit(&mut self) -> (r: ComposerStep)
        requires
            old(self).wf(),
        ensures
            final(self).wf(),
            (final(self)@, r@) == keyed(old(self)@, Key::Enter, false),
    {
        let value = text_of_all(&self.chars);
        if is_blank(value.as_str()) {
            return ComposerStep::Continue;
        }
        let n = self.history.len();
        let ghost before = texts(self.history@);
        assert(n > 0 ==> before.last() == self.history@[n - 1]@);
        if n == 0 || !same(self.history[n - 1].as_str(), value.as_str()) {
            self.history.push(value.clone());
            assert(texts(self.history@) =~= before.push(value@));
        }
        ComposerStep::Submit(value)
    }

    /// Takes a key.
    pub fn handle_key(&mut self, key: Key, ctrl: bool) -> (r: ComposerStep)
        requires
            old(self).wf(),
        ensures
            final(self).wf(),
            (final(self)@, r@) == keyed(old(self)@, key, ctrl),
    {
        match key {
            Key::BackTab => {
                self.mode = self.mode.next_interactive();
                ComposerStep::Flash(
                    cat3(self.mode.label(), " mode — ", self.mode.description()),
                )
            },
            Key::Enter => self.submit(),
            Key::Char(c) => {
                if ctrl {
                    self.control(c)
                } else {
                    self.insert(c);
                    self.history_index = None;
                    ComposerStep::Continue
                }
            },
            Key::Escape => {
                self.clear();
                ComposerStep::Continue
            },
            Key::Backspace => {
                if self.cursor > 0 {
                    let from = self.cursor - 1;
                    self.erase_from(from);
                }
                ComposerStep::Continue
            },
            Key::Delete => {
                if self.cursor < self.chars.len() {
                    let at = self.cursor;
                    self.chars.remove(at);
                }
                ComposerStep::Continue
            },
            Key::Left => {
                if self.cursor > 0 {
                    self.cursor = self.cursor - 1;
                }
                ComposerStep::Continue
            },
            Key::Right => {
                if self.cursor < self.chars.len() {
                    self.cursor = self.cursor + 1;
                } else {
                    self.cursor = self.chars.len();
                }
                ComposerStep::Continue
            },
            Key::Home => {
                self.cursor = 0;
                ComposerStep::Continue
            },
            Key::End => {
                self.cursor = self.chars.len();
                ComposerStep::Continue
            },
            Key::Up => {
                self.show_earlier();
                ComposerStep::Continue
            },
            Key::Down => {
                self.show_later();
                ComposerStep::Continue
            },
            _ => ComposerStep::Continue,
        }
    }
}

// ---------------------------------------------------------------------------------------------
// Laws
// ---------------------------------------------------------------------------------------------

/// A character that was typed is taken back by the key that erases it: the line and the place are as
/// before. Only that an earlier prompt was being looked at is forgotten.
pub proof fn erasing_takes_back_typing(m: ComposerView, c: char)
    requires
        m.wf(),
    ensures
        keyed(keyed(m, Key::Char(c), false).0, Key::Backspace, false).0 == (ComposerView {
            history_index: None,
            ..m
        }),
{
    let after = keyed(m, Key::Char(c), false).0;
    let back = keyed(after, Key::Backspace, false).0;
    assert(after.chars.take(m.cursor) =~= m.chars.take(m.cursor));
    assert(after.chars.skip(m.cursor + 1) =~= m.chars.skip(m.cursor));
    assert(back.chars =~= m.chars);
}

/// Going back to the prompt before and forward again shows what was written.
pub proof fn history_returns_to_the_draft(m: ComposerView)
    requires
        m.wf(),
        m.history_index is None,
        m.history.len() > 0,
    ensures
        later(earlier(m)).chars == m.chars,
        later(earlier(m)).history_index is None,
{
}

/// What is sent is never blank, and is what was written.
pub proof fn sent_prompts_are_not_blank(m: ComposerView, key: Key, ctrl: bool)
    requires
        keyed(m, key, ctrl).1 is Submit,
    ensures
        keyed(m, key, ctrl).1 == StepView::Submit(m.chars),
        !blank(m.chars),
{
}

/// A character that is typed or a text that is pasted stands where the cursor was, the text before
/// and behind it stays, and the cursor stands behind it. Line ends that are pasted become spaces.
pub proof fn what_is_typed_stands_at_the_cursor(m: ComposerView, c: char, text: Seq<char>)
    requires
        m.wf(),
    ensures
        ({
            let after = keyed(m, Key::Char(c), false).0;
            &&& after.chars.len() == m.chars.len() + 1
            &&& after.chars.take(m.cursor) == m.chars.take(m.cursor)
            &&& after.chars[m.cursor] == c
            &&& after.chars.skip(m.cursor + 1) == m.chars.skip(m.cursor)
            &&& after.cursor == m.cursor + 1
        }),
        ({
            let after = pasted(m, text);
            &&& after.chars.len() == m.chars.len() + text.len()
            &&& after.chars.take(m.cursor) == m.chars.take(m.cursor)
            &&& after.chars.skip(m.cursor + text.len()) == m.chars.skip(m.cursor)
            &&& after.cursor == m.cursor + text.len()
            &&& forall|i: int|
                0 <= i < text.len() ==> #[trigger] after.chars[m.cursor + i] == if text[i] == '\n'
                    || text[i] == '\r' {
                    ' '
                } else {
                    text[i]
                }
        }),
{
    let one = keyed(m, Key::Char(c), false).0;
    assert(one.chars.take(m.cursor) =~= m.chars.take(m.cursor));
    assert(one.chars.skip(m.cursor + 1) =~= m.chars.skip(m.cursor));
    let all = pasted(m, text);
    assert(all.chars.take(m.cursor) =~= m.chars.take(m.cursor));
    assert(all.chars.skip(m.cursor + text.len()) =~= m.chars.skip(m.cursor));
}

/// Moving the cursor changes no text: it goes one place to a side, or to an end, and never beyond.
pub proof fn moving_changes_no_text(m: ComposerView)
    requires
        m.wf(),
    ensures
        keyed(m, Key::Left, false).0.chars == m.chars,
        keyed(m, Key::Right, false).0.chars == m.chars,
        keyed(m, Key::Home, false).0 == (ComposerView { cursor: 0, ..m }),
        keyed(m, Key::End, false).0 == (ComposerView { cursor: m.chars.len() as int, ..m }),
        m.cursor > 0 ==> keyed(m, Key::Left, false).0.cursor == m.cursor - 1,
        m.cursor == 0 ==> keyed(m, Key::Left, false).0.cursor == 0,
        m.cursor < m.chars.len() ==> keyed(m, Key::Right, false).0.cursor == m.cursor + 1,
        m.cursor == m.chars.len() ==> keyed(m, Key::Right, false).0.cursor == m.cursor,
{
}

/// Erasing takes the character before the cursor or under it and no other; a whole side of the line
/// goes where that is asked for, and clearing takes all.
pub proof fn erasing_takes_what_it_says(m: ComposerView, i: int)
    requires
        m.wf(),
        0 <= i < m.chars.len(),
    ensures
        m.cursor > 0 ==> ({
            let after = keyed(m, Key::Backspace, false).0;
            &&& after.chars.len() == m.chars.len() - 1 && after.cursor == m.cursor - 1
            &&& i < m.cursor - 1 ==> after.chars[i] == m.chars[i]
            &&& i >= m.cursor ==> after.chars[i - 1] == m.chars[i]
        }),
        m.cursor < m.chars.len() ==> ({
            let after = keyed(m, Key::Delete, false).0;
            &&& after.chars.len() == m.chars.len() - 1 && after.cursor == m.cursor
            &&& i < m.cursor ==> after.chars[i] == m.chars[i]
            &&& i > m.cursor ==> after.chars[i - 1] == m.chars[i]
        }),
        keyed(m, Key::Char('u'), true).0.chars == m.chars.skip(m.cursor),
        keyed(m, Key::Char('u'), true).0.cursor == 0,
        keyed(m, Key::Char('k'), true).0.chars == m.chars.take(m.cursor),
        keyed(m, Key::Escape, false).0.chars.len() == 0,
{
    assert(keyed(m, Key::Char('u'), true).0.chars =~= m.chars.skip(m.cursor));
}

/// What is sent is the whole line as it stands, and it is remembered last; one that was remembered
/// last already is not remembered twice.
pub proof fn the_whole_line_is_sent(m: ComposerView)
    requires
        !blank(m.chars),
    ensures
        ({
            let (after, step) = keyed(m, Key::Enter, false);
            &&& step == StepView::Submit(m.chars)
            &&& m.history.is_prefix_of(after.history)
            &&& after.history.len() > 0 && after.history.last() == m.chars
            &&& after.history.len() <= m.history.len() + 1
            &&& m.history.len() > 0 && m.history.last() == m.chars ==> after.history == m.history
        }),
{
}

/// Going up shows what was sent before, the last first, and going down comes back; what was being
/// typed is kept meanwhile.
pub proof fn history_is_shown_backwards(m: ComposerView, i: int)
    requires
        m.wf(),
        m.history.len() > 0,
    ensures
        m.history_index is None ==> ({
            let after = keyed(m, Key::Up, false).0;
            &&& after.chars == m.history.last() && after.draft == m.chars
            &&& after.history_index == Some(m.history.len() - 1)
        }),
        m.history_index == Some(i) && i > 0 ==> ({
            let after = keyed(m, Key::Up, false).0;
            after.chars == m.history[i - 1] && after.history_index == Some(i - 1) && after.draft
                == m.draft
        }),
        m.history_index == Some(i) && i + 1 < m.history.len() ==> ({
            let after = keyed(m, Key::Down, false).0;
            after.chars == m.history[i + 1] && after.history_index == Some(i + 1) && after.draft
                == m.draft
        }),
        m.history_index == Some(i) && i + 1 == m.history.len() ==> ({
            let after = keyed(m, Key::Down, false).0;
            after.chars == m.draft && after.history_index is None
        }),
{
}

/// Only an empty line is left by a control character; one with text is cleared first.
pub proof fn text_is_not_left_by_accident(m: ComposerView)
    ensures
        keyed(m, Key::Char('c'), true).1 is Quit <==> m.chars.len() == 0,
        keyed(m, Key::Char('d'), true).1 is Quit <==> m.chars.len() == 0,
        m.chars.len() > 0 ==> keyed(m, Key::Char('c'), true).0.chars.len() == 0,
        keyed(m, Key::BackTab, false).0.mode == next_mode(m.mode),
        keyed(m, Key::BackTab, false).0.chars == m.chars,
{
}

/// Erasing a word takes the spaces before the cursor and the word before them, and no more: what is
/// left before the cursor is empty or ends in a space, and what was taken is a word with spaces
/// behind it.
pub proof fn words_are_erased_whole(m: ComposerView)
    requires
        m.wf(),
    ensures
        ({
            let after = keyed(m, Key::Char('w'), true).0;
            let at = after.cursor;
            &&& 0 <= at <= m.cursor
            &&& after.chars == m.chars.take(at) + m.chars.skip(m.cursor)
            &&& at == 0 || m.chars[at - 1] == ' '
            &&& m.cursor > 0 ==> at < m.cursor
            &&& exists|k: int|
                at <= k <= m.cursor && (forall|i: int| at <= i < k ==> #[trigger] m.chars[i] != ' ')
                    && #[trigger] spaces_between(m.chars, k, m.cursor)
        }),
{
    let k = before_spaces(m.chars, m.cursor);
    spaces_end_there(m.chars, m.cursor);
    word_ends_there(m.chars, k);
    assert(spaces_between(m.chars, k, m.cursor));
}

/// Whether all characters from one place to another are spaces.
pub open spec fn spaces_between(s: Seq<char>, from: int, to: int) -> bool {
    forall|i: int| from <= i < to ==> #[trigger] s[i] == ' '
}

proof fn spaces_end_there(s: Seq<char>, i: int)
    requires
        0 <= i <= s.len(),
    ensures
        0 <= before_spaces(s, i) <= i,
        spaces_between(s, before_spaces(s, i), i),
        before_spaces(s, i) > 0 ==> s[before_spaces(s, i) - 1] != ' ',
    decreases i,
{
    if i > 0 && s[i - 1] == ' ' {
        spaces_end_there(s, i - 1);
    }
}

proof fn word_ends_there(s: Seq<char>, i: int)
    requires
        0 <= i <= s.len(),
    ensures
        0 <= before_word(s, i) <= i,
        forall|k: int| before_word(s, i) <= k < i ==> #[trigger] s[k] != ' ',
        before_word(s, i) > 0 ==> s[before_word(s, i) - 1] == ' ',
    decreases i,
{
    if i > 0 && s[i - 1] != ' ' {
        word_ends_there(s, i - 1);
    }
}

} // verus!
