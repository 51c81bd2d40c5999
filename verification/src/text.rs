//! Text as sequences of characters: the operations the rest of the crate is built on.
//!
//! A `str` or a `String` is viewed as the sequence of its characters. Each executable function
//! here stands beside the mathematical function that says what it computes.
use vstd::prelude::*;
use vstd::utf8::{decode_utf8, valid_utf8};

verus! {

/// `String::push` appends one character.
pub assume_specification[ String::push ](s: &mut String, c: char)
    ensures
        final(s)@ == old(s)@.push(c),
;

// ---------------------------------------------------------------------------------------------
// Characters
// ---------------------------------------------------------------------------------------------

/// The Unicode `White_Space` property.
pub open spec fn white_space(c: char) -> bool {
    ||| '\u{9}' <= c <= '\u{d}'
    ||| c == ' '
    ||| c == '\u{85}'
    ||| c == '\u{a0}'
    ||| c == '\u{1680}'
    ||| '\u{2000}' <= c <= '\u{200a}'
    ||| c == '\u{2028}'
    ||| c == '\u{2029}'
    ||| c == '\u{202f}'
    ||| c == '\u{205f}'
    ||| c == '\u{3000}'
}

/// Whether a character is white space.
pub fn is_white_space(c: char) -> (r: bool)
    ensures
        r == white_space(c),
{
    ('\u{9}' <= c && c <= '\u{d}') || c == ' ' || c == '\u{85}' || c == '\u{a0}'
        || c == '\u{1680}' || ('\u{2000}' <= c && c <= '\u{200a}') || c == '\u{2028}'
        || c == '\u{2029}' || c == '\u{202f}' || c == '\u{205f}' || c == '\u{3000}'
}

/// The lower-case letter of an ASCII capital; any other character is itself.
pub open spec fn ascii_lower_char(c: char) -> char {
    if 'A' <= c <= 'Z' {
        ((c as u32 + 32) as u32) as char
    } else {
        c
    }
}

/// Lowers one ASCII capital.
pub fn lower_ascii_char(c: char) -> (r: char)
    ensures
        r == ascii_lower_char(c),
{
    if 'A' <= c && c <= 'Z' {
        (c as u8 + 32) as char
    } else {
        c
    }
}

/// `s` with its ASCII capitals lowered.
pub open spec fn ascii_lower(s: Seq<char>) -> Seq<char> {
    s.map_values(|c: char| ascii_lower_char(c))
}

// ---------------------------------------------------------------------------------------------
// Between strings and vectors of characters
// ---------------------------------------------------------------------------------------------

/// The characters of a string.
pub fn chars_of(s: &str) -> (r: Vec<char>)
    ensures
        r@ == s@,
{
    let mut r: Vec<char> = Vec::new();
    for c in it: s.chars()
        invariant
            it.seq() == s@,
            r@ == s@.take(it.index() as int),
    {
        r.push(c);
    }
    assert(s@.take(s@.len() as int) =~= s@);
    r
}

/// The string of a stretch of characters.
pub fn text_of(v: &Vec<char>, from: usize, to: usize) -> (r: String)
    requires
        from <= to <= v@.len(),
    ensures
        r@ == v@.subrange(from as int, to as int),
{
    let mut r = String::new();
    let mut i: usize = from;
    while i < to
        invariant
            from <= i <= to <= v@.len(),
            r@ == v@.subrange(from as int, i as int),
        decreases to - i,
    {
        r.push(v[i]);
        i = i + 1;
        assert(r@ =~= v@.subrange(from as int, i as int));
    }
    r
}

/// The string of all the characters of a vector.
pub fn text_of_all(v: &Vec<char>) -> (r: String)
    ensures
        r@ == v@,
{
    let r = text_of(v, 0, v.len());
    assert(v@.subrange(0, v@.len() as int) =~= v@);
    r
}

/// What `String::from_utf8_lossy` makes of bytes.
pub uninterp spec fn lossy_utf8(bytes: Seq<u8>) -> Seq<char>;

/// `std::str::from_utf8`: the text whose UTF-8 encoding some bytes are, or nothing where they are
/// not valid UTF-8.
#[verifier::external_body]
pub(crate) fn text_of_utf8(bytes: &[u8]) -> (r: Option<String>)
    ensures
        match r {
            Some(s) => valid_utf8(bytes@) && s@ == decode_utf8(bytes@),
            None => !valid_utf8(bytes@),
        },
{
    std::str::from_utf8(bytes).ok().map(|text| text.to_owned())
}

/// `String::from_utf8_lossy`: the text of some bytes, whose valid UTF-8 stays as it is.
#[verifier::external_body]
pub(crate) fn lossy_text(bytes: &[u8]) -> (r: String)
    ensures
        r@ == lossy_utf8(bytes@),
        valid_utf8(bytes@) ==> r@ == decode_utf8(bytes@),
{
    String::from_utf8_lossy(bytes).into_owned()
}

/// Whether two strings hold the same characters.
pub fn same(a: &str, b: &str) -> (r: bool)
    ensures
        r == (a@ == b@),
{
    let x = a.to_owned();
    let y = b.to_owned();
    x == y
}

/// Two strings, one after the other.
pub fn cat2(a: &str, b: &str) -> (r: String)
    ensures
        r@ == a@ + b@,
{
    let mut r = a.to_owned();
    r.append(b);
    r
}

/// Three strings, one after the other.
pub fn cat3(a: &str, b: &str, c: &str) -> (r: String)
    ensures
        r@ == a@ + b@ + c@,
{
    let mut r = a.to_owned();
    r.append(b);
    r.append(c);
    r
}

/// Four strings, one after the other.
pub fn cat4(a: &str, b: &str, c: &str, d: &str) -> (r: String)
    ensures
        r@ == a@ + b@ + c@ + d@,
{
    let mut r = a.to_owned();
    r.append(b);
    r.append(c);
    r.append(d);
    r
}

/// Five strings, one after the other.
pub fn cat5(a: &str, b: &str, c: &str, d: &str, e: &str) -> (r: String)
    ensures
        r@ == a@ + b@ + c@ + d@ + e@,
{
    let mut r = a.to_owned();
    r.append(b);
    r.append(c);
    r.append(d);
    r.append(e);
    r
}

/// A result with its value and its error message taken as mathematical values.
pub open spec fn outcome<T: DeepView>(r: Result<T, String>) -> Result<T::V, Seq<char>> {
    match r {
        Ok(v) => Ok(v.deep_view()),
        Err(e) => Err(e@),
    }
}

/// The number of characters.
pub fn count_chars(s: &str) -> (r: usize)
    ensures
        r == s@.len(),
{
    chars_of(s).len()
}


/// The views of a list of strings.
pub open spec fn texts(v: Seq<String>) -> Seq<Seq<char>> {
    v.map_values(|s: String| s@)
}

/// The first `n` characters, or all of a shorter text.
pub open spec fn taken(s: Seq<char>, n: int) -> Seq<char> {
    if s.len() <= n {
        s
    } else {
        s.take(n)
    }
}

/// Keeps at most `n` characters.
pub fn take_chars(s: &str, n: usize) -> (r: String)
    ensures
        r@ == taken(s@, n as int),
{
    let v = chars_of(s);
    if v.len() <= n {
        s.to_owned()
    } else {
        let r = text_of(&v, 0, n);
        assert(v@.subrange(0, n as int) =~= s@.take(n as int));
        r
    }
}

/// Lowers the ASCII capitals of a string.
pub fn lower_ascii(s: &str) -> (r: String)
    ensures
        r@ == ascii_lower(s@),
{
    let v = chars_of(s);
    let mut r = String::new();
    let mut i: usize = 0;
    while i < v.len()
        invariant
            v@ == s@,
            i <= v@.len(),
            r@ == ascii_lower(s@.take(i as int)),
        decreases v@.len() - i,
    {
        r.push(lower_ascii_char(v[i]));
        i = i + 1;
        assert(r@ =~= ascii_lower(s@.take(i as int)));
    }
    assert(s@.take(i as int) =~= s@);
    r
}

/// `s` with each `from` replaced by `to`.
pub open spec fn char_replaced(s: Seq<char>, from: char, to: char) -> Seq<char> {
    s.map_values(|c: char| if c == from { to } else { c })
}

/// Replaces one character by another.
pub fn replace_char(s: &str, from: char, to: char) -> (r: String)
    ensures
        r@ == char_replaced(s@, from, to),
{
    let v = chars_of(s);
    let mut r = String::new();
    let mut i: usize = 0;
    while i < v.len()
        invariant
            v@ == s@,
            i <= v@.len(),
            r@ == char_replaced(s@.take(i as int), from, to),
        decreases v@.len() - i,
    {
        if v[i] == from {
            r.push(to);
        } else {
            r.push(v[i]);
        }
        i = i + 1;
        assert(r@ =~= char_replaced(s@.take(i as int), from, to));
    }
    assert(s@.take(i as int) =~= s@);
    r
}

/// the character `c` `n` times.
pub open spec fn repeated(c: char, n: int) -> Seq<char> {
    Seq::new(if n < 0 { 0 } else { n as nat }, |i: int| c)
}

/// Appends a character `n` times.
pub fn push_times(s: &mut String, c: char, n: usize)
    ensures
        final(s)@ == old(s)@ + repeated(c, n as int),
{
    let mut i: usize = 0;
    while i < n
        invariant
            i <= n,
            s@ == old(s)@ + repeated(c, i as int),
        decreases n - i,
    {
        s.push(c);
        i = i + 1;
        assert(s@ =~= old(s)@ + repeated(c, i as int));
    }
    assert(s@ =~= old(s)@ + repeated(c, n as int));
}

/// `s` filled with spaces on the right up to `width` characters.
pub open spec fn padded_end(s: Seq<char>, width: int) -> Seq<char> {
    s + repeated(' ', width - s.len())
}

/// Fills with spaces on the right.
pub fn pad_end(s: &str, width: usize) -> (r: String)
    ensures
        r@ == padded_end(s@, width as int),
{
    let n = count_chars(s);
    let mut r = s.to_owned();
    if n < width {
        push_times(&mut r, ' ', width - n);
    } else {
        assert(r@ =~= padded_end(s@, width as int));
    }
    r
}

/// `s` filled with spaces on the left up to `width` characters.
pub open spec fn padded_start(s: Seq<char>, width: int) -> Seq<char> {
    repeated(' ', width - s.len()) + s
}

/// Fills with spaces on the left.
pub fn pad_start(s: &str, width: usize) -> (r: String)
    ensures
        r@ == padded_start(s@, width as int),
{
    let n = count_chars(s);
    let mut r = String::new();
    if n < width {
        push_times(&mut r, ' ', width - n);
    }
    r.append(s);
    assert(r@ =~= padded_start(s@, width as int));
    r
}

// ---------------------------------------------------------------------------------------------
// Numbers
// ---------------------------------------------------------------------------------------------

/// The decimal digit of a value below ten.
pub open spec fn digit_char(d: int) -> char {
    ((48 + d) as u32) as char
}

/// A natural number in decimal.
pub open spec fn decimal(n: nat) -> Seq<char>
    decreases n,
{
    if n < 10 {
        seq![digit_char(n as int)]
    } else {
        decimal(n / 10).push(digit_char((n % 10) as int))
    }
}

fn push_decimal(s: &mut String, n: u64)
    ensures
        final(s)@ == old(s)@ + decimal(n as nat),
    decreases n,
{
    if n < 10 {
        s.push((48u8 + n as u8) as char);
        assert(s@ =~= old(s)@ + decimal(n as nat));
    } else {
        push_decimal(s, n / 10);
        s.push((48u8 + (n % 10) as u8) as char);
        assert(s@ =~= old(s)@ + decimal(n as nat));
    }
}

/// Writes a number in decimal.
pub fn number_text(n: u64) -> (r: String)
    ensures
        r@ == decimal(n as nat),
{
    let mut r = String::new();
    push_decimal(&mut r, n);
    assert(r@ =~= decimal(n as nat));
    r
}

/// A signed number in decimal.
pub open spec fn signed_decimal(n: int) -> Seq<char> {
    if n < 0 {
        seq!['-'] + decimal((-n) as nat)
    } else {
        decimal(n as nat)
    }
}

/// Writes a signed number in decimal.
pub fn signed_text(n: i64) -> (r: String)
    ensures
        r@ == signed_decimal(n as int),
{
    let mut r = String::new();
    if n < 0 {
        r.push('-');
        let m: u64 = (-(n as i128)) as u64;
        push_decimal(&mut r, m);
        assert(r@ =~= signed_decimal(n as int));
    } else {
        push_decimal(&mut r, n as u64);
        assert(r@ =~= signed_decimal(n as int));
    }
    r
}

// ---------------------------------------------------------------------------------------------
// Trimming and words
// ---------------------------------------------------------------------------------------------

/// `s` without the white space it starts with.
pub open spec fn trimmed_start(s: Seq<char>) -> Seq<char>
    decreases s.len(),
{
    if s.len() > 0 && white_space(s[0]) {
        trimmed_start(s.skip(1))
    } else {
        s
    }
}

/// `s` without the white space it ends with.
pub open spec fn trimmed_end(s: Seq<char>) -> Seq<char>
    decreases s.len(),
{
    if s.len() > 0 && white_space(s.last()) {
        trimmed_end(s.drop_last())
    } else {
        s
    }
}

/// `s` without the white space at either end.
pub open spec fn trimmed(s: Seq<char>) -> Seq<char> {
    trimmed_end(trimmed_start(s))
}

/// Whether a text holds nothing but white space.
pub open spec fn blank(s: Seq<char>) -> bool {
    forall|i: int| 0 <= i < s.len() ==> white_space(#[trigger] s[i])
}

/// A text is trimmed to nothing exactly when it is blank.
pub proof fn trimmed_is_empty_iff_blank(s: Seq<char>)
    ensures
        (trimmed(s).len() == 0) == blank(s),
        (trimmed_start(s).len() == 0) == blank(s),
    decreases s.len(),
{
    if s.len() > 0 && white_space(s[0]) {
        trimmed_is_empty_iff_blank(s.skip(1));
        if blank(s.skip(1)) {
            assert forall|i: int| 0 <= i < s.len() implies white_space(#[trigger] s[i]) by {
                if i > 0 {
                    assert(s.skip(1)[i - 1] == s[i]);
                }
            }
        } else {
            let j = choose|j: int| 0 <= j < s.skip(1).len() && !white_space(#[trigger] s.skip(1)[j]);
            assert(s.skip(1)[j] == s[j + 1]);
        }
    } else if s.len() > 0 {
        trimmed_end_keeps_ink(s);
    }
}

proof fn trimmed_end_keeps_ink(s: Seq<char>)
    requires
        s.len() > 0,
        !white_space(s[0]),
    ensures
        trimmed_end(s).len() > 0,
        trimmed_end(s)[0] == s[0],
    decreases s.len(),
{
    if white_space(s.last()) {
        trimmed_end_keeps_ink(s.drop_last());
    }
}

proof fn trimmed_end_is_trimmed(s: Seq<char>)
    ensures
        trimmed_end(trimmed_end(s)) == trimmed_end(s),
    decreases s.len(),
{
    if s.len() > 0 && white_space(s.last()) {
        trimmed_end_is_trimmed(s.drop_last());
    }
}

/// Trimming a trimmed text changes nothing.
pub proof fn trimmed_is_trimmed(s: Seq<char>)
    ensures
        trimmed(trimmed(s)) == trimmed(s),
{
    let a = trimmed_start(s);
    trimmed_start_bounds(s);
    trimmed_end_is_trimmed(a);
    if a.len() > 0 {
        trimmed_end_keeps_ink(a);
    }
}

fn skip_white(v: &Vec<char>, from: usize) -> (i: usize)
    requires
        from <= v@.len(),
    ensures
        from <= i <= v@.len(),
        v@.skip(i as int) == trimmed_start(v@.skip(from as int)),
        i < v@.len() ==> !white_space(v@[i as int]),
{
    let mut i: usize = from;
    while i < v.len() && is_white_space(v[i])
        invariant
            from <= i <= v@.len(),
            trimmed_start(v@.skip(i as int)) == trimmed_start(v@.skip(from as int)),
        decreases v@.len() - i,
    {
        assert(v@.skip(i as int).skip(1) =~= v@.skip(i + 1));
        i = i + 1;
    }
    i
}

fn white_end(v: &Vec<char>, from: usize, to: usize) -> (j: usize)
    requires
        from <= to <= v@.len(),
    ensures
        from <= j <= to,
        v@.subrange(from as int, j as int) == trimmed_end(v@.subrange(from as int, to as int)),
{
    let mut j: usize = to;
    while j > from && is_white_space(v[j - 1])
        invariant
            from <= j <= to <= v@.len(),
            trimmed_end(v@.subrange(from as int, j as int)) == trimmed_end(
                v@.subrange(from as int, to as int),
            ),
        decreases j,
    {
        assert(v@.subrange(from as int, j as int).drop_last() =~= v@.subrange(
            from as int,
            j - 1,
        ));
        j = j - 1;
    }
    j
}

/// Drops the white space at the start.
pub fn trim_start(s: &str) -> (r: String)
    ensures
        r@ == trimmed_start(s@),
{
    let v = chars_of(s);
    let i = skip_white(&v, 0);
    let r = text_of(&v, i, v.len());
    assert(v@.skip(0) =~= v@);
    assert(r@ =~= v@.skip(i as int));
    r
}

/// Drops the white space at the end.
pub fn trim_end(s: &str) -> (r: String)
    ensures
        r@ == trimmed_end(s@),
{
    let v = chars_of(s);
    let j = white_end(&v, 0, v.len());
    assert(v@.subrange(0, v@.len() as int) =~= v@);
    text_of(&v, 0, j)
}

/// Drops the white space at both ends.
pub fn trim(s: &str) -> (r: String)
    ensures
        r@ == trimmed(s@),
{
    let v = chars_of(s);
    let i = skip_white(&v, 0);
    let j = white_end(&v, i, v.len());
    assert(v@.skip(0) =~= v@);
    assert(v@.subrange(i as int, v@.len() as int) =~= v@.skip(i as int));
    text_of(&v, i, j)
}

/// Whether a string is blank.
pub fn is_blank(s: &str) -> (r: bool)
    ensures
        r == blank(s@),
        r == (trimmed(s@).len() == 0),
{
    proof {
        trimmed_is_empty_iff_blank(s@);
    }
    let v = chars_of(s);
    let i = skip_white(&v, 0);
    assert(v@.skip(0) =~= v@);
    assert(v@.skip(i as int).len() == v@.len() - i);
    i == v.len()
}

/// The length of the word a text starts with.
pub open spec fn word_len(s: Seq<char>) -> int
    decreases s.len(),
{
    if s.len() > 0 && !white_space(s[0]) {
        1 + word_len(s.skip(1))
    } else {
        0
    }
}

/// A word is no longer than its text, and a text that starts with ink starts with a word.
pub proof fn word_len_bounds(s: Seq<char>)
    ensures
        0 <= word_len(s) <= s.len(),
        s.len() > 0 && !white_space(s[0]) ==> word_len(s) > 0,
    decreases s.len(),
{
    if s.len() > 0 && !white_space(s[0]) {
        word_len_bounds(s.skip(1));
    }
}

/// Dropping leading white space does not lengthen a text and leaves ink in front.
pub proof fn trimmed_start_bounds(s: Seq<char>)
    ensures
        trimmed_start(s).len() <= s.len(),
        trimmed_start(s).len() > 0 ==> !white_space(trimmed_start(s)[0]),
    decreases s.len(),
{
    if s.len() > 0 && white_space(s[0]) {
        trimmed_start_bounds(s.skip(1));
    }
}

/// The words of a text: the longest stretches without white space, in order.
pub open spec fn words(s: Seq<char>) -> Seq<Seq<char>>
    decreases s.len(),
{
    let t = trimmed_start(s);
    if t.len() == 0 {
        seq![]
    } else {
        proof {
            trimmed_start_bounds(s);
            word_len_bounds(t);
        }
        seq![t.take(word_len(t))] + words(t.skip(word_len(t)))
    }
}

fn word_end(v: &Vec<char>, from: usize) -> (i: usize)
    requires
        from <= v@.len(),
    ensures
        from <= i <= v@.len(),
        i == from + word_len(v@.skip(from as int)),
{
    let mut i: usize = from;
    while i < v.len() && !is_white_space(v[i])
        invariant
            from <= i <= v@.len(),
            i - from + word_len(v@.skip(i as int)) == word_len(v@.skip(from as int)),
        decreases v@.len() - i,
    {
        assert(v@.skip(i as int).skip(1) =~= v@.skip(i + 1));
        i = i + 1;
    }
    i
}

/// Splits a text into its words.
pub fn split_words(s: &str) -> (r: Vec<String>)
    ensures
        texts(r@) == words(s@),
{
    let v = chars_of(s);
    let mut r: Vec<String> = Vec::new();
    let mut i: usize = skip_white(&v, 0);
    assert(v@.skip(0) =~= v@);
    assert(trimmed_start(v@.skip(i as int)) == v@.skip(i as int));
    assert(texts(r@) =~= seq![]);
    assert(texts(r@) + words(v@.skip(i as int)) =~= words(s@));
    while i < v.len()
        invariant
            i <= v@.len(),
            trimmed_start(v@.skip(i as int)) == v@.skip(i as int),
            i < v@.len() ==> !white_space(v@[i as int]),
            texts(r@) + words(v@.skip(i as int)) == words(s@),
        decreases v@.len() - i,
    {
        let ghost before = texts(r@);
        let ghost t = v@.skip(i as int);
        let j = word_end(&v, i);
        proof {
            word_len_bounds(t);
            assert(t[0] == v@[i as int]);
        }
        let w = text_of(&v, i, j);
        assert(w@ =~= t.take(word_len(t)));
        r.push(w);
        assert(texts(r@) =~= before.push(w@));
        assert(t.skip(word_len(t)) =~= v@.skip(j as int));
        let k = skip_white(&v, j);
        proof {
            trimmed_start_bounds(v@.skip(j as int));
            assert(trimmed_start(v@.skip(k as int)) == v@.skip(k as int)) by {
                if k < v@.len() {
                    assert(v@.skip(k as int)[0] == v@[k as int]);
                }
            }
            assert(words(v@.skip(j as int)) == words(v@.skip(k as int)));
            assert(texts(r@) + words(v@.skip(k as int)) =~= before + (seq![w@] + words(
                v@.skip(j as int),
            )));
        }
        i = k;
    }
    assert(v@.skip(i as int).len() == 0);
    assert(texts(r@) =~= words(s@));
    r
}

/// The texts of a list with `sep` between neighbours.
pub open spec fn joined(parts: Seq<Seq<char>>, sep: Seq<char>) -> Seq<char>
    decreases parts.len(),
{
    if parts.len() == 0 {
        seq![]
    } else if parts.len() == 1 {
        parts[0]
    } else {
        joined(parts.drop_last(), sep) + sep + parts.last()
    }
}

/// Whether a text is a word: not empty, and without white space.
pub open spec fn is_word(s: Seq<char>) -> bool {
    s.len() > 0 && forall|i: int| 0 <= i < s.len() ==> !white_space(#[trigger] s[i])
}

proof fn word_len_stops_at_white_space(s: Seq<char>, n: int)
    requires
        0 <= n <= s.len(),
        forall|i: int| 0 <= i < n ==> !white_space(#[trigger] s[i]),
        n < s.len() ==> white_space(s[n]),
    ensures
        word_len(s) == n,
    decreases n,
{
    if n > 0 {
        assert forall|i: int| 0 <= i < n - 1 implies !white_space(#[trigger] s.skip(1)[i]) by {
            assert(s.skip(1)[i] == s[i + 1]);
        }
        word_len_stops_at_white_space(s.skip(1), n - 1);
    }
}

proof fn word_len_is_without_white_space(s: Seq<char>, i: int)
    requires
        0 <= i < word_len(s),
    ensures
        i < s.len(),
        !white_space(s[i]),
    decreases i,
{
    if i > 0 {
        word_len_is_without_white_space(s.skip(1), i - 1);
    }
}

/// The words of a text are words.
pub proof fn words_are_words(s: Seq<char>)
    ensures
        forall|i: int| 0 <= i < words(s).len() ==> is_word(#[trigger] words(s)[i]),
    decreases s.len(),
{
    let t = trimmed_start(s);
    trimmed_start_bounds(s);
    word_len_bounds(t);
    if t.len() > 0 {
        let first = t.take(word_len(t));
        let rest = t.skip(word_len(t));
        words_are_words(rest);
        assert forall|i: int| 0 <= i < first.len() implies !white_space(#[trigger] first[i]) by {
            word_len_is_without_white_space(t, i);
        }
        assert forall|i: int| 0 <= i < words(s).len() implies is_word(#[trigger] words(s)[i]) by {
            if i > 0 {
                assert(words(s)[i] == words(rest)[i - 1]);
            }
        }
    }
}

proof fn joined_from_the_front(parts: Seq<Seq<char>>, sep: Seq<char>)
    requires
        parts.len() >= 2,
    ensures
        joined(parts, sep) == parts[0] + (sep + joined(parts.skip(1), sep)),
    decreases parts.len(),
{
    if parts.len() == 2 {
        reveal_with_fuel(joined, 3);
        assert(joined(parts, sep) =~= parts[0] + (sep + joined(parts.skip(1), sep)));
    } else {
        joined_from_the_front(parts.drop_last(), sep);
        assert(parts.drop_last().skip(1) =~= parts.skip(1).drop_last());
        assert(joined(parts, sep) =~= parts[0] + (sep + joined(parts.skip(1), sep)));
    }
}

/// Words that are joined by spaces are found again.
pub proof fn joined_words_are_found(parts: Seq<Seq<char>>)
    requires
        forall|i: int| 0 <= i < parts.len() ==> is_word(#[trigger] parts[i]),
    ensures
        words(joined(parts, " "@)) == parts,
    decreases parts.len(),
{
    reveal_strlit(" ");
    let all = joined(parts, " "@);
    if parts.len() == 0 {
        assert(words(all) =~= parts);
    } else {
        let first = parts[0];
        let rest = parts.skip(1);
        assert(is_word(first));
        assert forall|i: int| 0 <= i < rest.len() implies is_word(#[trigger] rest[i]) by {
            assert(rest[i] == parts[i + 1]);
        }
        joined_words_are_found(rest);
        if parts.len() == 1 {
            assert(all =~= first);
            assert(rest =~= seq![]);
            word_len_stops_at_white_space(all, first.len() as int);
            assert(all.take(first.len() as int) =~= first);
            assert(all.skip(first.len() as int) =~= seq![]);
        } else {
            joined_from_the_front(parts, " "@);
            let tail = " "@ + joined(rest, " "@);
            assert forall|i: int| 0 <= i < first.len() implies !white_space(#[trigger] all[i]) by {
                assert(all[i] == first[i]);
            }
            assert(all[first.len() as int] == ' ');
            word_len_stops_at_white_space(all, first.len() as int);
            assert(all[0] == first[0]);
            assert(all.take(first.len() as int) =~= first);
            assert(all.skip(first.len() as int) =~= tail);
            assert(tail.skip(1) =~= joined(rest, " "@));
            assert(trimmed_start(tail) == trimmed_start(joined(rest, " "@)));
            assert(words(tail) == words(joined(rest, " "@)));
        }
        assert(words(all) =~= parts);
    }
}

/// Joins strings with a separator.
pub fn join(parts: &Vec<String>, sep: &str) -> (r: String)
    ensures
        r@ == joined(texts(parts@), sep@),
{
    let mut r = String::new();
    let mut i: usize = 0;
    assert(texts(parts@).take(0) =~= seq![]);
    while i < parts.len()
        invariant
            i <= parts@.len(),
            r@ == joined(texts(parts@).take(i as int), sep@),
        decreases parts@.len() - i,
    {
        assert(texts(parts@).take(i + 1).drop_last() =~= texts(parts@).take(i as int));
        if i > 0 {
            r.append(sep);
        }
        r.append(parts[i].as_str());
        assert(texts(parts@).take(i + 1).last() == parts@[i as int]@);
        i = i + 1;
        assert(r@ =~= joined(texts(parts@).take(i as int), sep@));
    }
    assert(texts(parts@).take(i as int) =~= texts(parts@));
    r
}

// ---------------------------------------------------------------------------------------------
// Searching
// ---------------------------------------------------------------------------------------------

/// Whether `p` stands in `s` at position `i`.
pub open spec fn occurs_at(s: Seq<char>, p: Seq<char>, i: int) -> bool {
    0 <= i && i + p.len() <= s.len() && s.subrange(i, i + p.len()) == p
}

/// Whether `s` starts with `p`.
pub open spec fn begins_with(s: Seq<char>, p: Seq<char>) -> bool {
    occurs_at(s, p, 0)
}

/// Whether `s` ends with `p`.
pub open spec fn finishes_with(s: Seq<char>, p: Seq<char>) -> bool {
    occurs_at(s, p, s.len() - p.len())
}

/// Whether `p` stands somewhere in `s`.
pub open spec fn has_text(s: Seq<char>, p: Seq<char>) -> bool {
    exists|i: int| occurs_at(s, p, i)
}

/// The first position at or after `from` at which `p` stands in `s`, if there is one.
pub open spec fn found_from(s: Seq<char>, p: Seq<char>, from: int) -> Option<int>
    decreases s.len() + 1 - from,
{
    if from < 0 || from + p.len() > s.len() {
        None
    } else if occurs_at(s, p, from) {
        Some(from)
    } else {
        found_from(s, p, from + 1)
    }
}

/// A search yields the least position, and fails only where there is none.
pub proof fn found_from_is_first(s: Seq<char>, p: Seq<char>, from: int)
    requires
        0 <= from,
    ensures
        match found_from(s, p, from) {
            Some(i) => {
                &&& from <= i
                &&& occurs_at(s, p, i)
                &&& forall|j: int| from <= j < i ==> !occurs_at(s, p, j)
            },
            None => forall|j: int| from <= j ==> !occurs_at(s, p, j),
        },
    decreases s.len() + 1 - from,
{
    if from + p.len() <= s.len() && !occurs_at(s, p, from) {
        found_from_is_first(s, p, from + 1);
    }
}

fn stands_at(v: &Vec<char>, p: &Vec<char>, at: usize) -> (r: bool)
    requires
        at <= v@.len(),
    ensures
        r == occurs_at(v@, p@, at as int),
{
    if v.len() - at < p.len() {
        return false;
    }
    let mut k: usize = 0;
    while k < p.len()
        invariant
            k <= p@.len(),
            at + p@.len() <= v.len(),
            forall|j: int| 0 <= j < k ==> v@[at + j] == p@[j],
        decreases p@.len() - k,
    {
        if v[at + k] != p[k] {
            assert(v@.subrange(at as int, at + p@.len())[k as int] != p@[k as int]);
            return false;
        }
        k = k + 1;
    }
    assert(v@.subrange(at as int, at + p@.len()) =~= p@);
    true
}

pub(crate) fn find_chars(v: &Vec<char>, p: &Vec<char>, from: usize) -> (r: Option<usize>)
    requires
        from <= v@.len(),
    ensures
        match r {
            Some(i) => found_from(v@, p@, from as int) == Some(i as int) && i + p.len() <= v.len(),
            None => found_from(v@, p@, from as int) is None,
        },
{
    let mut i: usize = from;
    while i <= v.len() && p.len() <= v.len() - i
        invariant
            from <= i <= v@.len() + 1,
            found_from(v@, p@, i as int) == found_from(v@, p@, from as int),
        decreases v@.len() + 1 - i,
    {
        if stands_at(v, p, i) {
            return Some(i);
        }
        if i == v.len() {
            assert(found_from(v@, p@, i + 1) is None);
            return None;
        }
        i = i + 1;
    }
    None
}

/// Whether a string starts with another.
pub fn starts_with(s: &str, p: &str) -> (r: bool)
    ensures
        r == begins_with(s@, p@),
{
    stands_at(&chars_of(s), &chars_of(p), 0)
}

/// Whether a string ends with another.
pub fn ends_with(s: &str, p: &str) -> (r: bool)
    ensures
        r == finishes_with(s@, p@),
{
    let v = chars_of(s);
    let q = chars_of(p);
    q.len() <= v.len() && stands_at(&v, &q, v.len() - q.len())
}

/// Whether a string holds another.
pub fn contains(s: &str, p: &str) -> (r: bool)
    ensures
        r == has_text(s@, p@),
{
    proof {
        found_from_is_first(s@, p@, 0);
    }
    find_chars(&chars_of(s), &chars_of(p), 0).is_some()
}

/// What follows the prefix `p` in `s`, where `s` starts with `p`.
pub open spec fn after_prefix(s: Seq<char>, p: Seq<char>) -> Option<Seq<char>> {
    if begins_with(s, p) {
        Some(s.skip(p.len() as int))
    } else {
        None
    }
}

/// Removes a prefix.
pub fn strip_prefix(s: &str, p: &str) -> (r: Option<String>)
    ensures
        r.deep_view() == after_prefix(s@, p@),
{
    let v = chars_of(s);
    let q = chars_of(p);
    if stands_at(&v, &q, 0) {
        let t = text_of(&v, q.len(), v.len());
        assert(t@ =~= s@.skip(p@.len() as int));
        Some(t)
    } else {
        None
    }
}

/// How often `p` stands in `s`, counted without overlaps from the left; `p` is not empty.
pub open spec fn occurrences(s: Seq<char>, p: Seq<char>, from: int) -> nat
    decreases s.len() - from,
{
    if p.len() == 0 || from < 0 {
        0
    } else {
        match found_from(s, p, from) {
            Some(i) if from <= i && i + p.len() <= s.len() => 1 + occurrences(s, p, i + p.len()),
            _ => 0,
        }
    }
}

/// Counts the occurrences of a non-empty text.
pub fn count_occurrences(s: &str, p: &str) -> (r: usize)
    requires
        p@.len() > 0,
    ensures
        r == occurrences(s@, p@, 0),
{
    let v = chars_of(s);
    let q = chars_of(p);
    let mut n: usize = 0;
    let mut i: usize = 0;
    loop
        invariant
            v@ == s@,
            q@ == p@,
            p@.len() > 0,
            i <= v.len(),
            n <= i,
            n + occurrences(s@, p@, i as int) == occurrences(s@, p@, 0),
        decreases v@.len() - i,
    {
        proof {
            found_from_is_first(s@, p@, i as int);
        }
        match find_chars(&v, &q, i) {
            Some(k) => {
                n = n + 1;
                i = k + q.len();
            },
            None => {
                return n;
            },
        }
    }
}

/// `s` with the first `p` replaced by `new`; unchanged where `p` does not occur.
pub open spec fn first_replaced(s: Seq<char>, p: Seq<char>, new: Seq<char>) -> Seq<char> {
    match found_from(s, p, 0) {
        Some(i) => s.take(i) + new + s.skip(i + p.len()),
        None => s,
    }
}

/// Replaces the first occurrence of a text.
pub fn replace_first(s: &str, p: &str, new: &str) -> (r: String)
    ensures
        r@ == first_replaced(s@, p@, new@),
{
    let v = chars_of(s);
    let q = chars_of(p);
    proof {
        found_from_is_first(s@, p@, 0);
    }
    match find_chars(&v, &q, 0) {
        Some(i) => {
            let mut r = text_of(&v, 0, i);
            r.append(new);
            let rest = text_of(&v, i + q.len(), v.len());
            r.append(rest.as_str());
            assert(r@ =~= s@.take(i as int) + new@ + s@.skip(i + p@.len()));
            r
        },
        None => s.to_owned(),
    }
}

// ---------------------------------------------------------------------------------------------
// Splitting
// ---------------------------------------------------------------------------------------------

/// The position of the first `c`, or the length of the text.
pub open spec fn index_of_char(s: Seq<char>, c: char) -> int
    decreases s.len(),
{
    if s.len() == 0 || s[0] == c {
        0
    } else {
        1 + index_of_char(s.skip(1), c)
    }
}

/// The position found lies within the text and is the first one.
pub proof fn index_of_char_is_first(s: Seq<char>, c: char)
    ensures
        0 <= index_of_char(s, c) <= s.len(),
        index_of_char(s, c) < s.len() ==> s[index_of_char(s, c)] == c,
        forall|j: int| 0 <= j < index_of_char(s, c) ==> s[j] != c,
    decreases s.len(),
{
    if s.len() > 0 && s[0] != c {
        index_of_char_is_first(s.skip(1), c);
        let k = index_of_char(s.skip(1), c);
        assert forall|j: int| 0 <= j < index_of_char(s, c) implies s[j] != c by {
            if j > 0 {
                assert(s.skip(1)[j - 1] == s[j]);
            }
        }
    }
}

fn find_char(v: &Vec<char>, c: char, from: usize) -> (i: usize)
    requires
        from <= v@.len(),
    ensures
        from <= i <= v@.len(),
        i == from + index_of_char(v@.skip(from as int), c),
{
    let mut i: usize = from;
    while i < v.len() && v[i] != c
        invariant
            from <= i <= v@.len(),
            i - from + index_of_char(v@.skip(i as int), c) == index_of_char(
                v@.skip(from as int),
                c,
            ),
        decreases v@.len() - i,
    {
        assert(v@.skip(i as int).skip(1) =~= v@.skip(i + 1));
        i = i + 1;
    }
    i
}

/// The pieces of a text between the separators `c`: one more than there are separators.
pub open spec fn split_on(s: Seq<char>, c: char) -> Seq<Seq<char>>
    decreases s.len(),
{
    let n = index_of_char(s, c);
    if 0 <= n < s.len() {
        seq![s.take(n)] + split_on(s.skip(n + 1), c)
    } else {
        seq![s]
    }
}

/// Splits a text at a separator.
pub fn split_char(s: &str, c: char) -> (r: Vec<String>)
    ensures
        texts(r@) == split_on(s@, c),
{
    let v = chars_of(s);
    let mut r: Vec<String> = Vec::new();
    let mut i: usize = 0;
    assert(v@.skip(0) =~= s@);
    assert(texts(r@) + split_on(s@, c) =~= split_on(s@, c));
    loop
        invariant
            v@ == s@,
            i <= v@.len(),
            texts(r@) + split_on(v@.skip(i as int), c) == split_on(s@, c),
        decreases v@.len() - i,
    {
        let ghost before = texts(r@);
        let ghost t = v@.skip(i as int);
        proof {
            index_of_char_is_first(t, c);
        }
        let j = find_char(&v, c, i);
        let piece = text_of(&v, i, j);
        assert(piece@ =~= t.take(j - i));
        r.push(piece);
        assert(texts(r@) =~= before.push(piece@));
        if j == v.len() {
            assert(piece@ =~= t);
            assert(texts(r@) =~= before + seq![t]);
            return r;
        }
        assert(t.skip(j - i + 1) =~= v@.skip(j + 1));
        assert(texts(r@) + split_on(v@.skip(j + 1), c) =~= before + (seq![piece@] + split_on(
            v@.skip(j + 1),
            c,
        )));
        i = j + 1;
    }
}

/// A line without the carriage return in front of its line feed.
pub open spec fn without_cr(s: Seq<char>) -> Seq<char> {
    if s.len() > 0 && s.last() == '\r' {
        s.drop_last()
    } else {
        s
    }
}

/// The lines of a text. Each ends at a line feed, which may have a carriage return in front;
/// the last line may lack its line feed.
pub open spec fn lines(s: Seq<char>) -> Seq<Seq<char>>
    decreases s.len(),
{
    let n = index_of_char(s, '\n');
    if s.len() == 0 {
        seq![]
    } else if 0 <= n < s.len() {
        seq![without_cr(s.take(n))] + lines(s.skip(n + 1))
    } else {
        seq![s]
    }
}

/// Splits a text into its lines.
pub fn split_lines(s: &str) -> (r: Vec<String>)
    ensures
        texts(r@) == lines(s@),
{
    let v = chars_of(s);
    let mut r: Vec<String> = Vec::new();
    let mut i: usize = 0;
    assert(v@.skip(0) =~= s@);
    assert(texts(r@) + lines(s@) =~= lines(s@));
    while i < v.len()
        invariant
            v@ == s@,
            i <= v@.len(),
            texts(r@) + lines(v@.skip(i as int)) == lines(s@),
        decreases v@.len() - i,
    {
        let ghost before = texts(r@);
        let ghost t = v@.skip(i as int);
        proof {
            index_of_char_is_first(t, '\n');
        }
        let j = find_char(&v, '\n', i);
        if j == v.len() {
            let piece = text_of(&v, i, j);
            assert(piece@ =~= t);
            r.push(piece);
            assert(texts(r@) =~= before + seq![t]);
            return r;
        }
        let end = if i < j && v[j - 1] == '\r' {
            j - 1
        } else {
            j
        };
        let piece = text_of(&v, i, end);
        assert(piece@ =~= without_cr(t.take(j - i)));
        r.push(piece);
        assert(texts(r@) =~= before.push(piece@));
        assert(t.skip(j - i + 1) =~= v@.skip(j + 1));
        assert(texts(r@) + lines(v@.skip(j + 1)) =~= before + (seq![piece@] + lines(
            v@.skip(j + 1),
        )));
        i = j + 1;
    }
    assert(texts(r@) =~= lines(s@));
    r
}

// ---------------------------------------------------------------------------------------------
// Laws
// ---------------------------------------------------------------------------------------------

/// Joined lists are joined by the separator.
pub proof fn joined_append(a: Seq<Seq<char>>, b: Seq<Seq<char>>, sep: Seq<char>)
    requires
        a.len() > 0,
        b.len() > 0,
    ensures
        joined(a + b, sep) == joined(a, sep) + sep + joined(b, sep),
    decreases b.len(),
{
    let all = a + b;
    assert(all.last() == b.last());
    assert(all.drop_last() =~= a + b.drop_last());
    if b.len() == 1 {
        assert(a + b.drop_last() =~= a);
        assert(joined(b, sep) == b[0]);
    } else {
        joined_append(a, b.drop_last(), sep);
        assert(joined(all, sep) =~= joined(a, sep) + sep + joined(b, sep));
    }
}

/// The words of two texts with a space between them are those of the one and those of the other.
pub proof fn words_append(a: Seq<char>, b: Seq<char>)
    ensures
        words(a + " "@ + b) == words(a) + words(b),
    decreases a.len(),
{
    reveal_strlit(" ");
    let all = a + " "@ + b;
    if a.len() == 0 {
        assert(all.skip(1) =~= b);
        assert(trimmed_start(all) == trimmed_start(b));
        assert(trimmed_start(a) =~= a);
        assert(words(all) == words(b));
        assert(words(a) + words(b) =~= words(b));
    } else if white_space(a[0]) {
        assert(all[0] == a[0]);
        assert(all.skip(1) =~= a.skip(1) + " "@ + b);
        assert(trimmed_start(all) == trimmed_start(all.skip(1)));
        assert(trimmed_start(a) == trimmed_start(a.skip(1)));
        assert(words(all) == words(all.skip(1)));
        assert(words(a) == words(a.skip(1)));
        words_append(a.skip(1), b);
    } else {
        let n = word_len(a);
        word_len_bounds(a);
        assert forall|i: int| 0 <= i < n implies !white_space(#[trigger] all[i]) by {
            word_len_is_without_white_space(a, i);
            assert(all[i] == a[i]);
        }
        word_ends_in_white_space(a);
        if n < a.len() {
            assert(all[n] == a[n]);
        } else {
            assert(all[n] == ' ');
        }
        word_len_stops_at_white_space(all, n);
        assert(all[0] == a[0]);
        assert(all.take(n) =~= a.take(n));
        assert(all.skip(n) =~= a.skip(n) + " "@ + b);
        words_append(a.skip(n), b);
        assert(words(all) =~= words(a) + words(b));
    }
}

proof fn word_ends_in_white_space(s: Seq<char>)
    ensures
        0 <= word_len(s) <= s.len(),
        word_len(s) < s.len() ==> white_space(s[word_len(s)]),
    decreases s.len(),
{
    if s.len() > 0 && !white_space(s[0]) {
        word_ends_in_white_space(s.skip(1));
    }
}

/// Words that stand one space apart begin a command exactly where they are its first words.
pub proof fn words_begin_by_words(a: Seq<Seq<char>>, b: Seq<Seq<char>>)
    requires
        a.len() > 0,
        forall|i: int| 0 <= i < a.len() ==> is_word(#[trigger] a[i]),
        forall|i: int| 0 <= i < b.len() ==> is_word(#[trigger] b[i]),
    ensures
        (joined(b, " "@) == joined(a, " "@) || begins_with(
            joined(b, " "@),
            joined(a, " "@) + " "@,
        )) <==> a.is_prefix_of(b),
        joined(a, " "@).len() > 0,
{
    reveal_strlit(" ");
    let x = joined(a, " "@);
    let y = joined(b, " "@);
    joined_words_are_found(a);
    joined_words_are_found(b);
    if x.len() == 0 {
        assert(trimmed_start(x) =~= x);
        assert(words(x).len() == 0);
    }
    if begins_with(y, x + " "@) {
        let rest = y.skip(x.len() as int + 1);
        assert(y =~= x + " "@ + rest) by {
            let head = x + " "@;
            assert(y.subrange(0, head.len() as int) == head);
            assert forall|i: int| 0 <= i < y.len() implies y[i] == (x + " "@ + rest)[i] by {
                if i < head.len() {
                    assert(y.subrange(0, head.len() as int)[i] == head[i]);
                }
            }
        }
        words_append(x, rest);
        assert(b == a + words(rest));
        assert(a.is_prefix_of(b));
    }
    if a.is_prefix_of(b) {
        if a.len() == b.len() {
            assert(a =~= b);
        } else {
            let tail = b.skip(a.len() as int);
            assert(b =~= a + tail);
            joined_append(a, tail, " "@);
            let head = x + " "@;
            assert(y.subrange(0, head.len() as int) =~= head);
        }
    }
}

/// The pieces between separators hold no separator, and put together with it they are the text.
pub proof fn pieces_make_up_the_text(s: Seq<char>, c: char)
    ensures
        joined(split_on(s, c), seq![c]) == s,
        split_on(s, c).len() > 0,
        forall|i: int, k: int|
            0 <= i < split_on(s, c).len() && 0 <= k < split_on(s, c)[i].len() ==> #[trigger] split_on(
                s,
                c,
            )[i][k] != c,
    decreases s.len(),
{
    index_of_char_is_first(s, c);
    let n = index_of_char(s, c);
    let all = split_on(s, c);
    if n < s.len() {
        let rest = s.skip(n + 1);
        pieces_make_up_the_text(rest, c);
        let first = seq![s.take(n)];
        assert(all =~= first + split_on(rest, c));
        joined_append(first, split_on(rest, c), seq![c]);
        assert(s =~= s.take(n) + seq![c] + rest);
        assert forall|i: int, k: int| 0 <= i < all.len() && 0 <= k < all[i].len() implies (
        #[trigger] all[i][k]) != c by {
            if i > 0 {
                assert(all[i] == split_on(rest, c)[i - 1]);
            }
        }
    }
}

/// A line ends at its line feed, or at the carriage return in front of it; what follows are further
/// lines. A text without a line feed is one line, and nothing is none.
pub proof fn lines_end_at_line_feeds(line: Seq<char>, rest: Seq<char>)
    requires
        forall|i: int| 0 <= i < line.len() ==> #[trigger] line[i] != '\n',
    ensures
        lines(line) == if line.len() == 0 {
            Seq::<Seq<char>>::empty()
        } else {
            seq![line]
        },
        !(line.len() > 0 && line.last() == '\r') ==> lines(line + seq!['\n'] + rest) == seq![line]
            + lines(rest),
        lines(line + seq!['\r', '\n'] + rest) == seq![line] + lines(rest),
{
    index_of_char_is_first(line, '\n');
    let a = line + seq!['\n'] + rest;
    let n = line.len() as int;
    index_of_char_is_first(a, '\n');
    assert(a[n] == '\n');
    assert forall|i: int| 0 <= i < n implies a[i] != '\n' by {
        assert(a[i] == line[i]);
    }
    assert(index_of_char(a, '\n') == n);
    assert(a.take(n) =~= line);
    assert(a.skip(n + 1) =~= rest);
    let b = line + seq!['\r', '\n'] + rest;
    index_of_char_is_first(b, '\n');
    assert(b[n + 1] == '\n' && b[n] == '\r');
    assert forall|i: int| 0 <= i < n + 1 implies b[i] != '\n' by {
        if i < n {
            assert(b[i] == line[i]);
        }
    }
    assert(index_of_char(b, '\n') == n + 1);
    assert(b.take(n + 1) =~= line.push('\r'));
    assert(b.take(n + 1).drop_last() =~= line);
    assert(b.skip(n + 2) =~= rest);
}

proof fn trimmed_start_is_a_tail(s: Seq<char>)
    ensures
        trimmed_start(s).len() <= s.len(),
        trimmed_start(s) == s.skip(s.len() - trimmed_start(s).len()),
        forall|i: int| 0 <= i < s.len() - trimmed_start(s).len() ==> white_space(#[trigger] s[i]),
        trimmed_start(s).len() > 0 ==> !white_space(trimmed_start(s)[0]),
    decreases s.len(),
{
    if s.len() > 0 && white_space(s[0]) {
        let rest = s.skip(1);
        trimmed_start_is_a_tail(rest);
        assert(trimmed_start(s) =~= s.skip(s.len() - trimmed_start(s).len()));
        assert forall|i: int| 0 <= i < s.len() - trimmed_start(s).len() implies white_space(
            #[trigger] s[i],
        ) by {
            if i > 0 {
                assert(rest[i - 1] == s[i]);
            }
        }
    } else {
        assert(s.skip(0) =~= s);
    }
}

proof fn trimmed_end_is_a_head(s: Seq<char>)
    ensures
        trimmed_end(s).len() <= s.len(),
        trimmed_end(s) == s.take(trimmed_end(s).len() as int),
        forall|i: int| trimmed_end(s).len() <= i < s.len() ==> white_space(#[trigger] s[i]),
        trimmed_end(s).len() > 0 ==> !white_space(trimmed_end(s).last()),
    decreases s.len(),
{
    if s.len() > 0 && white_space(s.last()) {
        let rest = s.drop_last();
        trimmed_end_is_a_head(rest);
        assert(trimmed_end(s) =~= s.take(trimmed_end(s).len() as int));
        assert forall|i: int| trimmed_end(s).len() <= i < s.len() implies white_space(
            #[trigger] s[i],
        ) by {
            if i < s.len() - 1 {
                assert(rest[i] == s[i]);
            }
        }
    } else {
        assert(s.take(s.len() as int) =~= s);
    }
}

/// Trimming takes away white space at the ends and nothing else, and leaves none there.
pub proof fn trimming_takes_white_space_at_the_ends(s: Seq<char>)
    ensures
        exists|a: Seq<char>, b: Seq<char>|
            #![trigger blank(a), blank(b)]
            blank(a) && blank(b) && s == a + trimmed(s) + b,
        trimmed(s).len() > 0 ==> !white_space(trimmed(s)[0]) && !white_space(trimmed(s).last()),
{
    let t = trimmed_start(s);
    trimmed_start_is_a_tail(s);
    trimmed_end_is_a_head(t);
    let r = trimmed(s);
    let a = s.take(s.len() - t.len());
    let b = t.skip(r.len() as int);
    assert forall|i: int| 0 <= i < b.len() implies white_space(#[trigger] b[i]) by {
        assert(b[i] == t[r.len() + i]);
    }
    assert forall|i: int| 0 <= i < a.len() implies white_space(#[trigger] a[i]) by {
        assert(a[i] == s[i]);
    }
    assert(blank(a) && blank(b));
    assert(t =~= r + b);
    assert(s =~= a + t);
    assert(s =~= a + r + b);
    if r.len() > 0 {
        assert(r[0] == t[0]);
    }
}

/// The number that decimal digits stand for.
pub open spec fn decimal_value(s: Seq<char>) -> nat
    decreases s.len(),
{
    if s.len() == 0 {
        0
    } else {
        decimal_value(s.drop_last()) * 10 + (s.last() as u32 - '0' as u32) as nat
    }
}

/// A number in decimal is made of digits and reads as the number; it starts with no zero but for
/// zero itself.
pub proof fn decimals_read_as_their_number(n: nat)
    ensures
        decimal(n).len() > 0,
        forall|i: int| 0 <= i < decimal(n).len() ==> '0' <= #[trigger] decimal(n)[i] <= '9',
        decimal_value(decimal(n)) == n,
        n > 0 ==> decimal(n)[0] != '0',
    decreases n,
{
    let c = digit_char((n % 10) as int);
    assert(c as u32 == 48 + n % 10);
    if n < 10 {
        assert(decimal(n).drop_last() =~= Seq::empty());
        assert(decimal_value(decimal(n).drop_last()) == 0);
    } else {
        decimals_read_as_their_number(n / 10);
        assert(decimal(n).drop_last() =~= decimal(n / 10));
        assert(decimal(n)[0] == decimal(n / 10)[0]);
        assert forall|i: int| 0 <= i < decimal(n).len() implies '0' <= #[trigger] decimal(n)[i]
            <= '9' by {
            if i < decimal(n).len() - 1 {
                assert(decimal(n)[i] == decimal(n / 10)[i]);
            }
        }
    }
}

/// A text that stands nowhere in another is counted no time.
pub proof fn what_is_nowhere_is_not_counted(s: Seq<char>, p: Seq<char>)
    requires
        p.len() > 0,
    ensures
        occurrences(s, p, 0) == 0 <==> !has_text(s, p),
{
    found_from_is_first(s, p, 0);
    if has_text(s, p) {
        let i = choose|i: int| occurs_at(s, p, i);
        assert(0 <= i);
        assert(found_from(s, p, 0) is Some);
    } else if found_from(s, p, 0) is Some {
        assert(occurs_at(s, p, found_from(s, p, 0)->0));
    }
}

/// A text that stands at one place of another alone is counted once.
pub proof fn what_is_at_one_place_is_counted_once(s: Seq<char>, p: Seq<char>, i: int)
    requires
        p.len() > 0,
        occurs_at(s, p, i),
        forall|j: int| #[trigger] occurs_at(s, p, j) ==> j == i,
    ensures
        occurrences(s, p, 0) == 1,
{
    found_from_is_first(s, p, 0);
    found_from_is_first(s, p, i + p.len());
    assert(found_from(s, p, 0) == Some(i));
    assert(found_from(s, p, i + p.len()) is None);
    assert(occurrences(s, p, i + p.len()) == 0);
}

/// Where a text is counted once, it stands nowhere before its first place and nowhere behind what
/// stands there.
pub proof fn what_is_counted_once_is_at_one_place(s: Seq<char>, p: Seq<char>, j: int)
    requires
        p.len() > 0,
        occurrences(s, p, 0) == 1,
    ensures
        found_from(s, p, 0) is Some,
        occurs_at(s, p, found_from(s, p, 0)->0),
        occurs_at(s, p, j) ==> found_from(s, p, 0)->0 <= j < found_from(s, p, 0)->0 + p.len(),
{
    found_from_is_first(s, p, 0);
    let i = found_from(s, p, 0)->0;
    found_from_is_first(s, p, i + p.len());
    if found_from(s, p, i + p.len()) is Some {
        let k = found_from(s, p, i + p.len())->0;
        assert(occurs_at(s, p, k));
        assert(occurrences(s, p, i + p.len()) > 0);
    }
}

/// A text in lower case is as long as before; capitals of ASCII become their small letters, and
/// every other character stays.
pub proof fn only_capitals_are_lowered(s: Seq<char>, i: int)
    requires
        0 <= i < s.len(),
    ensures
        ascii_lower(s).len() == s.len(),
        'A' <= s[i] <= 'Z' ==> ascii_lower(s)[i] as int - 'a' as int == s[i] as int - 'A' as int,
        !('A' <= s[i] <= 'Z') ==> ascii_lower(s)[i] == s[i],
        ascii_lower(ascii_lower(s)) == ascii_lower(s),
{
    assert(ascii_lower(ascii_lower(s)) =~= ascii_lower(s));
}

/// A padded text has at least the width, and is the text with spaces on one side.
pub proof fn padding_adds_spaces(s: Seq<char>, width: int)
    ensures
        padded_start(s, width).len() >= s.len(),
        width > s.len() ==> padded_start(s, width).len() == width,
        width <= s.len() ==> padded_start(s, width) == s,
        padded_start(s, width).skip(padded_start(s, width).len() - s.len()) == s,
        forall|i: int|
            0 <= i < padded_start(s, width).len() - s.len() ==> #[trigger] padded_start(s, width)[i]
                == ' ',
        width > s.len() ==> padded_end(s, width).len() == width,
        width <= s.len() ==> padded_end(s, width) == s,
        padded_end(s, width).take(s.len() as int) == s,
        forall|i: int|
            s.len() <= i < padded_end(s, width).len() ==> #[trigger] padded_end(s, width)[i] == ' ',
{
    assert(padded_start(s, width).skip(padded_start(s, width).len() - s.len()) =~= s);
    assert(padded_end(s, width).take(s.len() as int) =~= s);
    if width <= s.len() {
        assert(padded_start(s, width) =~= s);
        assert(padded_end(s, width) =~= s);
    }
}

/// Only the first place of a text is replaced: what stands before it and behind it stays.
pub proof fn the_first_place_is_replaced(s: Seq<char>, p: Seq<char>, new: Seq<char>, i: int)
    requires
        occurs_at(s, p, i),
        forall|j: int| 0 <= j < i ==> !occurs_at(s, p, j),
    ensures
        first_replaced(s, p, new) == s.take(i) + new + s.skip(i + p.len()),
{
    found_from_is_first(s, p, 0);
    if let Some(k) = found_from(s, p, 0) {
        if k < i {
            assert(!occurs_at(s, p, k));
        }
        if k > i {
            assert(!occurs_at(s, p, i));
        }
    }
}

} // verus!
