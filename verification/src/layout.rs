//! Breaking text into lines of a width.
use crate::text::{chars_of, count_chars, split_char, split_on, take_chars, taken, text_of, texts};
use vstd::prelude::*;

verus! {

/// A text with two spaces in place of each tab.
pub open spec fn tabs_expanded(s: Seq<char>) -> Seq<char>
    decreases s.len(),
{
    if s.len() == 0 {
        s
    } else {
        let before = tabs_expanded(s.drop_last());
        if s.last() == '\t' {
            before.push(' ').push(' ')
        } else {
            before.push(s.last())
        }
    }
}

/// The width that lines are broken at: at least 8.
pub open spec fn line_width(width: nat) -> nat {
    if width < 8 {
        8
    } else {
        width
    }
}

/// A line with a word behind it, a space between them where the line is not empty.
pub open spec fn extended(current: Seq<char>, word: Seq<char>) -> Seq<char> {
    if current.len() > 0 {
        current.push(' ') + word
    } else {
        current + word
    }
}

/// How many characters of a word that is too long still fit on a line.
pub open spec fn room(current: Seq<char>, width: nat) -> nat {
    let used = if current.len() > 0 {
        current.len() + 1
    } else {
        0
    };
    if used < width {
        (width - used) as nat
    } else {
        0
    }
}

/// The lines that are full and the line that is not, after one more word. A word longer than a line
/// is cut, and starts on the line that is not full where at least 4 characters of it fit there.
pub open spec fn word_placed(
    done: Seq<Seq<char>>,
    current: Seq<char>,
    word: Seq<char>,
    width: nat,
) -> (Seq<Seq<char>>, Seq<char>)
    decreases word.len(), current.len(),
{
    if width < 8 {
        (done, current)
    } else if word.len() > width {
        let n = room(current, width);
        if n < 4 {
            word_placed(done.push(current), Seq::empty(), word, width)
        } else {
            word_placed(
                done.push(extended(current, word.take(n as int))),
                Seq::empty(),
                word.skip(n as int),
                width,
            )
        }
    } else if current.len() > 0 && current.len() + 1 + word.len() > width {
        (done.push(current), word)
    } else {
        (done, extended(current, word))
    }
}

/// The lines that are full and the line that is not, after the first `n` words.
pub open spec fn words_placed(all: Seq<Seq<char>>, width: nat, n: int) -> (
    Seq<Seq<char>>,
    Seq<char>,
)
    decreases n,
{
    if n <= 0 {
        (Seq::empty(), Seq::empty())
    } else {
        let (done, current) = words_placed(all, width, n - 1);
        word_placed(done, current, all[n - 1], width)
    }
}

/// A text in lines of a width.
pub open spec fn wrapped(text: Seq<char>, width: nat) -> Seq<Seq<char>> {
    let all = split_on(tabs_expanded(text), ' ');
    let (done, current) = words_placed(all, line_width(width), all.len() as int);
    done.push(current)
}

fn expand_tabs(text: &str) -> (r: String)
    ensures
        r@ == tabs_expanded(text@),
{
    let v = chars_of(text);
    let mut r = String::new();
    let mut i: usize = 0;
    while i < v.len()
        invariant
            i <= v@.len(),
            v@ == text@,
            r@ == tabs_expanded(text@.take(i as int)),
        decreases v.len() - i,
    {
        assert(text@.take(i + 1).drop_last() =~= text@.take(i as int));
        if v[i] == '\t' {
            r.push(' ');
            r.push(' ');
        } else {
            r.push(v[i]);
        }
        i += 1;
    }
    assert(text@.take(i as int) =~= text@);
    r
}

fn extend(current: &mut String, word: &str)
    ensures
        final(current)@ == extended(old(current)@, word@),
{
    if !current.as_str().is_empty() {
        current.push(' ');
    }
    current.append(word);
}

fn place_word(done: &mut Vec<String>, current: &mut String, word: &str, width: usize)
    requires
        width >= 8,
    ensures
        (texts(final(done)@), final(current)@) == word_placed(
            texts(old(done)@),
            old(current)@,
            word@,
            width as nat,
        ),
{
    let ghost expected = word_placed(texts(done@), current@, word@, width as nat);
    let v = chars_of(word);
    let mut from: usize = 0;
    assert(word@.skip(0) =~= word@);
    while v.len() - from > width
        invariant
            v@ == word@,
            from <= v@.len(),
            width >= 8,
            word_placed(texts(done@), current@, word@.skip(from as int), width as nat) == expected,
        decreases v.len() - from, current@.len(),
    {
        let ghost rest = word@.skip(from as int);
        let len = count_chars(current.as_str());
        let left: usize = if len == 0 {
            width
        } else if len < width {
            width - len - 1
        } else {
            0
        };
        assert(left == room(current@, width as nat));
        let ghost before = texts(done@);
        if left < 4 {
            let line = current.clone();
            done.push(line);
            *current = String::new();
            assert(texts(done@) =~= before.push(line@));
            assert(current@ =~= Seq::empty());
        } else {
            let piece = text_of(&v, from, from + left);
            assert(piece@ =~= rest.take(left as int));
            extend(current, piece.as_str());
            let line = current.clone();
            done.push(line);
            *current = String::new();
            assert(texts(done@) =~= before.push(line@));
            assert(current@ =~= Seq::empty());
            assert(rest.skip(left as int) =~= word@.skip(from + left));
            from = from + left;
        }
    }
    let tail = text_of(&v, from, v.len());
    assert(tail@ =~= word@.skip(from as int));
    let len = count_chars(current.as_str());
    let tail_len: usize = v.len() - from;
    let ghost before = texts(done@);
    if len > 0 && (len >= width || tail_len > width - len - 1) {
        let line = current.clone();
        done.push(line);
        *current = tail;
        assert(texts(done@) =~= before.push(line@));
    } else {
        extend(current, tail.as_str());
    }
}

/// A text in lines of a width.
pub fn wrap(text: &str, width: usize) -> (r: Vec<String>)
    ensures
        texts(r@) == wrapped(text@, width as nat),
{
    let width: usize = if width < 8 {
        8
    } else {
        width
    };
    let words = split_char(expand_tabs(text).as_str(), ' ');
    let ghost all = texts(words@);
    let mut done: Vec<String> = Vec::new();
    let mut current = String::new();
    let mut i: usize = 0;
    assert(texts(done@) =~= Seq::empty());
    assert(current@ =~= Seq::empty());
    while i < words.len()
        invariant
            i <= words@.len(),
            width >= 8,
            all == texts(words@),
            (texts(done@), current@) == words_placed(all, width as nat, i as int),
        decreases words.len() - i,
    {
        assert(all[i as int] == words@[i as int]@);
        place_word(&mut done, &mut current, words[i].as_str(), width);
        i += 1;
    }
    let ghost before = texts(done@);
    done.push(current);
    assert(texts(done@) =~= before.push(current@));
    done
}

/// A text cut to a number of characters, the last of which then says that it was cut.
pub open spec fn shortened(text: Seq<char>, max: nat) -> Seq<char> {
    if text.len() <= max {
        text
    } else {
        taken(
            text,
            if max > 0 {
                max - 1
            } else {
                0
            },
        ).push('…')
    }
}

/// A text cut to a number of characters.
pub fn truncate_line(text: &str, max: usize) -> (r: String)
    ensures
        r@ == shortened(text@, max as nat),
{
    if count_chars(text) <= max {
        return text.to_owned();
    }
    let mut r = take_chars(
        text,
        if max > 0 {
            max - 1
        } else {
            0
        },
    );
    r.push('…');
    r
}

/// The first 8 characters of an id.
pub fn short_id(id: &str) -> (r: String)
    ensures
        r@ == taken(id@, 8),
{
    take_chars(id, 8)
}

// ---------------------------------------------------------------------------------------------
// Laws
// ---------------------------------------------------------------------------------------------

/// Whether lines have at most a width.
pub open spec fn all_fit(rows: Seq<Seq<char>>, width: nat) -> bool {
    forall|i: int| 0 <= i < rows.len() ==> (#[trigger] rows[i]).len() <= width
}

proof fn placed_word_fits(done: Seq<Seq<char>>, current: Seq<char>, word: Seq<char>, width: nat)
    requires
        width >= 8,
        all_fit(done, width),
        current.len() <= width,
    ensures
        all_fit(word_placed(done, current, word, width).0, width),
        word_placed(done, current, word, width).1.len() <= width,
    decreases word.len(), current.len(),
{
    if word.len() > width {
        let n = room(current, width);
        if n < 4 {
            placed_word_fits(done.push(current), Seq::empty(), word, width);
        } else {
            placed_word_fits(
                done.push(extended(current, word.take(n as int))),
                Seq::empty(),
                word.skip(n as int),
                width,
            );
        }
    }
}

proof fn placed_words_fit(all: Seq<Seq<char>>, width: nat, n: int)
    requires
        width >= 8,
        0 <= n <= all.len(),
    ensures
        all_fit(words_placed(all, width, n).0, width),
        words_placed(all, width, n).1.len() <= width,
    decreases n,
{
    if n > 0 {
        placed_words_fit(all, width, n - 1);
        let (done, current) = words_placed(all, width, n - 1);
        placed_word_fits(done, current, all[n - 1], width);
    }
}

/// No line is longer than the width, or than 8 where the width is less.
pub proof fn wrapped_lines_fit(text: Seq<char>, width: nat)
    ensures
        all_fit(wrapped(text, width), line_width(width)),
{
    let all = split_on(tabs_expanded(text), ' ');
    placed_words_fit(all, line_width(width), all.len() as int);
}

/// The characters of a text that are not spaces.
pub open spec fn solid(s: Seq<char>) -> Seq<char>
    decreases s.len(),
{
    if s.len() == 0 {
        s
    } else if s.last() == ' ' {
        solid(s.drop_last())
    } else {
        solid(s.drop_last()).push(s.last())
    }
}

/// The characters of lines that are not spaces.
pub open spec fn all_solid(rows: Seq<Seq<char>>) -> Seq<char>
    decreases rows.len(),
{
    if rows.len() == 0 {
        Seq::empty()
    } else {
        all_solid(rows.drop_last()) + solid(rows.last())
    }
}

proof fn solid_append(a: Seq<char>, b: Seq<char>)
    ensures
        solid(a + b) == solid(a) + solid(b),
    decreases b.len(),
{
    if b.len() == 0 {
        assert(a + b =~= a);
        assert(solid(a) + solid(b) =~= solid(a));
    } else {
        assert((a + b).drop_last() =~= a + b.drop_last());
        assert((a + b).last() == b.last());
        solid_append(a, b.drop_last());
        assert(solid(a + b) =~= solid(a) + solid(b));
    }
}

proof fn solid_extended(current: Seq<char>, word: Seq<char>)
    ensures
        solid(extended(current, word)) == solid(current) + solid(word),
{
    if current.len() > 0 {
        solid_append(current.push(' '), word);
        assert(current.push(' ').drop_last() =~= current);
    } else {
        solid_append(current, word);
    }
}

proof fn placed_word_is_kept(
    done: Seq<Seq<char>>,
    current: Seq<char>,
    word: Seq<char>,
    width: nat,
)
    requires
        width >= 8,
    ensures
        ({
            let (d, c) = word_placed(done, current, word, width);
            all_solid(d) + solid(c) == all_solid(done) + solid(current) + solid(word)
        }),
    decreases word.len(), current.len(),
{
    let (d, c) = word_placed(done, current, word, width);
    if word.len() > width {
        let n = room(current, width) as int;
        let none: Seq<char> = Seq::empty();
        if n < 4 {
            placed_word_is_kept(done.push(current), none, word, width);
            assert(done.push(current).drop_last() =~= done);
            assert(all_solid(d) + solid(c) =~= all_solid(done) + solid(current) + solid(word));
        } else {
            let line = extended(current, word.take(n));
            placed_word_is_kept(done.push(line), none, word.skip(n), width);
            assert(done.push(line).drop_last() =~= done);
            solid_extended(current, word.take(n));
            solid_append(word.take(n), word.skip(n));
            assert(word.take(n) + word.skip(n) =~= word);
            assert(all_solid(d) + solid(c) =~= all_solid(done) + solid(current) + solid(word));
        }
    } else if current.len() > 0 && current.len() + 1 + word.len() > width {
        assert(done.push(current).drop_last() =~= done);
    } else {
        solid_extended(current, word);
        assert(all_solid(d) + solid(c) =~= all_solid(done) + solid(current) + solid(word));
    }
}

proof fn placed_words_are_kept(all: Seq<Seq<char>>, width: nat, n: int)
    requires
        width >= 8,
        0 <= n <= all.len(),
    ensures
        ({
            let (d, c) = words_placed(all, width, n);
            all_solid(d) + solid(c) == all_solid(all.take(n))
        }),
    decreases n,
{
    if n > 0 {
        placed_words_are_kept(all, width, n - 1);
        let (done, current) = words_placed(all, width, n - 1);
        placed_word_is_kept(done, current, all[n - 1], width);
        assert(all.take(n).drop_last() =~= all.take(n - 1));
    } else {
        assert(all.take(0) =~= Seq::empty());
        assert(all_solid(Seq::<Seq<char>>::empty()) + solid(Seq::<char>::empty())
            =~= Seq::empty());
    }
}

proof fn all_solid_push_front(first: Seq<char>, rest: Seq<Seq<char>>)
    ensures
        all_solid(seq![first] + rest) == solid(first) + all_solid(rest),
    decreases rest.len(),
{
    let all = seq![first] + rest;
    if rest.len() == 0 {
        reveal_with_fuel(all_solid, 2);
        assert(all.drop_last() =~= Seq::<Seq<char>>::empty());
        assert(all.last() == first);
        assert(all_solid(all) =~= solid(first) + all_solid(rest));
    } else {
        assert(all.drop_last() =~= seq![first] + rest.drop_last());
        assert(all.last() == rest.last());
        all_solid_push_front(first, rest.drop_last());
        assert(all_solid(all) =~= solid(first) + all_solid(rest));
    }
}

proof fn split_keeps_solid(s: Seq<char>)
    ensures
        all_solid(split_on(s, ' ')) == solid(s),
    decreases s.len(),
{
    let n = crate::text::index_of_char(s, ' ');
    crate::text::index_of_char_is_first(s, ' ');
    if 0 <= n < s.len() {
        let rest = s.skip(n + 1);
        split_keeps_solid(rest);
        all_solid_push_front(s.take(n), split_on(rest, ' '));
        assert(s =~= s.take(n).push(' ') + rest);
        solid_append(s.take(n).push(' '), rest);
        assert(s.take(n).push(' ').drop_last() =~= s.take(n));
    } else {
        let none: Seq<Seq<char>> = Seq::empty();
        assert(seq![s] + none =~= seq![s]);
        all_solid_push_front(s, none);
        assert(solid(s) + all_solid(none) =~= solid(s));
    }
}

/// Breaking a text into lines loses nothing but spaces.
pub proof fn wrapping_keeps_the_text(text: Seq<char>, width: nat)
    ensures
        all_solid(wrapped(text, width)) == solid(tabs_expanded(text)),
{
    let all = split_on(tabs_expanded(text), ' ');
    let w = line_width(width);
    placed_words_are_kept(all, w, all.len() as int);
    assert(all.take(all.len() as int) =~= all);
    split_keeps_solid(tabs_expanded(text));
    let (done, current) = words_placed(all, w, all.len() as int);
    assert(done.push(current).drop_last() =~= done);
}

/// A text that was cut has at most the number of characters it was cut to, but at least one.
pub proof fn shortened_texts_fit(text: Seq<char>, max: nat)
    ensures
        max > 0 ==> shortened(text, max).len() <= max,
        text.len() <= max ==> shortened(text, max) == text,
{
}

/// Each tab becomes two spaces, and every other character stays where it is.
pub proof fn tabs_become_two_spaces(a: Seq<char>, b: Seq<char>, c: char)
    ensures
        tabs_expanded(a + b) == tabs_expanded(a) + tabs_expanded(b),
        tabs_expanded(seq!['\t']) == seq![' ', ' '],
        c != '\t' ==> tabs_expanded(seq![c]) == seq![c],
    decreases b.len(),
{
    assert(seq!['\t'].drop_last() =~= Seq::<char>::empty());
    assert(seq![c].drop_last() =~= Seq::<char>::empty());
    assert(tabs_expanded(Seq::empty()) =~= Seq::<char>::empty());
    if b.len() == 0 {
        assert(a + b =~= a);
        assert(tabs_expanded(a) + tabs_expanded(b) =~= tabs_expanded(a));
    } else {
        tabs_become_two_spaces(a, b.drop_last(), c);
        assert((a + b).drop_last() =~= a + b.drop_last());
        assert(tabs_expanded(a + b) =~= tabs_expanded(a) + tabs_expanded(b));
    }
}

/// What is left of a text without its spaces are its other characters in their order.
pub proof fn solid_texts_have_no_spaces(s: Seq<char>)
    ensures
        solid(s) == s.filter(|c: char| c != ' '),
    decreases s.len(),
{
    reveal(Seq::filter);
    if s.len() > 0 {
        solid_texts_have_no_spaces(s.drop_last());
    }
}

/// A text that is too long keeps its start and ends in an ellipsis.
pub proof fn long_texts_keep_their_start(text: Seq<char>, max: nat)
    requires
        0 < max < text.len(),
    ensures
        shortened(text, max).len() == max,
        shortened(text, max).take(max - 1) == text.take(max - 1),
        shortened(text, max).last() == '…',
{
    assert(shortened(text, max).take(max - 1) =~= text.take(max - 1));
}

} // verus!
