//! Paths, as the platform takes them apart and puts them together.
//!
//! Which characters separate the parts of a path and what stands in front of them depends on the
//! platform, so paths are taken apart by `std::path`. The program runs on two kinds: on Windows `\`
//! separates as `/` does and a prefix may stand before the root, elsewhere only `/` separates. What is
//! known of a path is stated for each of the two. A path that means the same on both is called
//! portable.
use crate::text::{
    ascii_lower, begins_with, char_replaced, ends_with, finishes_with, index_of_char,
    index_of_char_is_first, lower_ascii, replace_char, same, split_char, split_on, starts_with,
    texts,
};
use vstd::prelude::*;

verus! {

// ---------------------------------------------------------------------------------------------
// Parts
// ---------------------------------------------------------------------------------------------

/// A part of a path.
#[derive(Debug, Clone, PartialEq, Eq)]
pub enum PathPart {
    /// What stands before the root, such as the letter of a drive.
    Prefix(String),
    /// The root of the file system or of what the prefix names.
    Root,
    /// `.` at the beginning of the path.
    Current,
    /// `..`.
    Parent,
    /// A name.
    Name(String),
}

/// The mathematical value of a [`PathPart`].
pub enum PartView {
    Prefix(Seq<char>),
    Root,
    Current,
    Parent,
    Name(Seq<char>),
}

impl View for PathPart {
    type V = PartView;

    open spec fn view(&self) -> PartView {
        match self {
            PathPart::Prefix(s) => PartView::Prefix(s@),
            PathPart::Root => PartView::Root,
            PathPart::Current => PartView::Current,
            PathPart::Parent => PartView::Parent,
            PathPart::Name(s) => PartView::Name(s@),
        }
    }
}

impl DeepView for PathPart {
    type V = PartView;

    open spec fn deep_view(&self) -> PartView {
        self@
    }
}

/// A part as a text.
pub open spec fn part_text(part: PartView) -> Seq<char> {
    match part {
        PartView::Prefix(s) => s,
        PartView::Root => "/"@,
        PartView::Current => "."@,
        PartView::Parent => ".."@,
        PartView::Name(s) => s,
    }
}

/// A part as a text.
pub fn show_part(part: &PathPart) -> (r: &str)
    ensures
        r@ == part_text(part@),
{
    match part {
        PathPart::Prefix(s) => s.as_str(),
        PathPart::Root => "/",
        PathPart::Current => ".",
        PathPart::Parent => "..",
        PathPart::Name(s) => s.as_str(),
    }
}

/// Whether a piece of a path names something.
pub open spec fn names(piece: Seq<char>) -> bool {
    piece.len() > 0 && piece != "."@
}

/// The pieces that name something.
pub open spec fn named(pieces: Seq<Seq<char>>) -> Seq<Seq<char>>
    decreases pieces.len(),
{
    if pieces.len() == 0 {
        Seq::empty()
    } else if names(pieces.last()) {
        named(pieces.drop_last()).push(pieces.last())
    } else {
        named(pieces.drop_last())
    }
}

/// The names in a path that is cut at `/`.
pub open spec fn names_between(path: Seq<char>) -> Seq<Seq<char>> {
    named(split_on(path, '/'))
}

/// Whether a path starts at a root.
pub open spec fn rooted(path: Seq<char>) -> bool {
    path.len() > 0 && path[0] == '/'
}

/// Whether a text holds no colon.
pub open spec fn no_colon(text: Seq<char>) -> bool {
    forall|i: int| 0 <= i < text.len() ==> #[trigger] text[i] != ':'
}

/// Whether a path begins with two characters that separate on one of the platforms.
pub open spec fn two_separators(path: Seq<char>) -> bool {
    path.len() > 1 && (path[0] == '/' || path[0] == '\\') && (path[1] == '/' || path[1] == '\\')
}

/// Whether a path means the same on every platform: it holds neither `\` nor `:`, and does not begin
/// with two separators.
pub open spec fn portable(path: Seq<char>) -> bool {
    &&& forall|i: int| 0 <= i < path.len() ==> #[trigger] path[i] != '\\' && path[i] != ':'
    &&& !two_separators(path)
}

/// A path with `/` wherever a platform separates.
pub open spec fn slashed(windows: bool, path: Seq<char>) -> Seq<char> {
    if windows {
        char_replaced(path, '\\', '/')
    } else {
        path
    }
}

/// The pieces of a path between the separators of a platform.
pub open spec fn pieces_on(windows: bool, path: Seq<char>) -> Seq<Seq<char>> {
    split_on(slashed(windows, path), '/')
}

/// Whether a path surely has no prefix on a platform.
pub open spec fn bare_on(windows: bool, path: Seq<char>) -> bool {
    windows ==> no_colon(path) && !two_separators(path)
}

/// The part that a name stands for.
pub open spec fn name_part(name: Seq<char>) -> PartView {
    if name == ".."@ {
        PartView::Parent
    } else {
        PartView::Name(name)
    }
}

/// What stands before the names of a path that is cut at `/`.
pub open spec fn slash_head(path: Seq<char>) -> Seq<PartView> {
    if rooted(path) {
        seq![PartView::Root]
    } else if split_on(path, '/')[0] == "."@ {
        seq![PartView::Current]
    } else {
        Seq::empty()
    }
}

/// The parts of a path that is cut at `/`.
pub open spec fn slash_parts(path: Seq<char>) -> Seq<PartView> {
    slash_head(path) + names_between(path).map_values(|name: Seq<char>| name_part(name))
}

/// Whether what a piece names is among some parts.
pub open spec fn piece_found(piece: Seq<char>, parts: Seq<PartView>) -> bool {
    names(piece) ==> parts.contains(name_part(piece))
}

/// What is known of the parts of a path on a platform: without a prefix they are those between the
/// separators, and in any path that does not begin with two separators each piece without a colon is
/// found.
pub open spec fn parts_on(windows: bool, path: Seq<char>, parts: Seq<PartView>) -> bool {
    &&& bare_on(windows, path) ==> parts == slash_parts(slashed(windows, path))
    &&& !two_separators(path) ==> forall|i: int|
        0 <= i < pieces_on(windows, path).len() && no_colon(#[trigger] pieces_on(windows, path)[i])
            ==> piece_found(pieces_on(windows, path)[i], parts)
}

/// Whether parts are what the platform finds in a path.
pub open spec fn taken_apart(path: Seq<char>, parts: Seq<PartView>) -> bool {
    exists|windows: bool| #[trigger] parts_on(windows, path, parts)
}

/// `std::path::Path::components`: the parts of a path on this platform. Which kind of platform it
/// is stays open. What is claimed of each kind: the separators are `/` and, on Windows, `\`;
/// repeated separators and `.` within a path count for nothing; and a prefix stands on Windows
/// only, where it is a drive with a colon or begins with two separators. Of what stands beside a
/// drive no more is said than that the names and `..` between separators are found, and of a path
/// that begins with two separators on Windows nothing.
#[verifier::external_body]
fn components(path: &str) -> (r: Vec<PathPart>)
    ensures
        taken_apart(path@, r.deep_view()),
{
    std::path::Path::new(path).components().map(
        |part| match part {
            std::path::Component::Prefix(p) => PathPart::Prefix(
                p.as_os_str().to_string_lossy().into_owned(),
            ),
            std::path::Component::RootDir => PathPart::Root,
            std::path::Component::CurDir => PathPart::Current,
            std::path::Component::ParentDir => PathPart::Parent,
            std::path::Component::Normal(name) => PathPart::Name(name.to_string_lossy().into_owned()),
        },
    ).collect()
}

/// The parts of a path on this platform.
pub fn path_parts(path: &str) -> (r: Vec<PathPart>)
    ensures
        taken_apart(path@, r.deep_view()),
{
    components(path)
}

fn piece_names(piece: &str) -> (r: bool)
    ensures
        r == names(piece@),
{
    proof {
        reveal_strlit("");
    }
    let empty = same(piece, "");
    assert(empty == (piece@.len() == 0)) by {
        if piece@.len() == 0 {
            assert(piece@ =~= ""@);
        }
    }
    !empty && !same(piece, ".")
}

/// The names in a path that is cut at `/`.
pub fn slash_names(path: &str) -> (r: Vec<String>)
    ensures
        texts(r@) == names_between(path@),
{
    let pieces = split_char(path, '/');
    let ghost all = texts(pieces@);
    let mut r: Vec<String> = Vec::new();
    let mut i: usize = 0;
    while i < pieces.len()
        invariant
            i <= pieces@.len(),
            all == texts(pieces@),
            texts(r@) == named(all.take(i as int)),
        decreases pieces.len() - i,
    {
        let ghost head = all.take(i + 1);
        assert(head.drop_last() =~= all.take(i as int));
        assert(head.last() == pieces@[i as int]@);
        if piece_names(pieces[i].as_str()) {
            let ghost before = texts(r@);
            r.push(pieces[i].clone());
            assert(texts(r@) =~= before.push(pieces@[i as int]@));
        }
        i += 1;
    }
    assert(all.take(i as int) =~= all);
    r
}

// ---------------------------------------------------------------------------------------------
// Directories
// ---------------------------------------------------------------------------------------------

/// Whether a text is a directory with a path behind it: a separator stands between them where none
/// ends the directory. On Windows none is needed behind a drive.
pub open spec fn put_behind(
    windows: bool,
    dir: Seq<char>,
    path: Seq<char>,
    r: Seq<char>,
) -> bool {
    if !windows {
        r == if dir.len() == 0 || dir.last() == '/' {
            dir + path
        } else {
            dir + "/"@ + path
        }
    } else {
        ||| r == dir + "\\"@ + path
        ||| r == dir + path && (dir.len() == 0 || dir.last() == '/' || dir.last() == '\\'
            || dir.last() == ':')
    }
}

/// Whether a text is a name or ends in a separator and a name.
pub open spec fn ends_in_name(text: Seq<char>, name: Seq<char>) -> bool {
    let at = text.len() - name.len();
    at >= 0 && text.skip(at) == name && (at == 0 || text[at - 1] == '/' || text[at - 1] == '\\')
}

/// What is known of a path that is taken from a directory on a platform. Where only `/` separates,
/// a path with a root stands for itself, and another is put behind the directory. On Windows a path
/// without a root and without a colon is put behind the directory, unless that begins with two
/// backslashes, where `.` and `..` may be taken out; and the result ends in the name that the path
/// ends in.
pub open spec fn join_on(windows: bool, dir: Seq<char>, path: Seq<char>, r: Seq<char>) -> bool {
    if !windows {
        if rooted(path) {
            r == path
        } else {
            put_behind(false, dir, path, r)
        }
    } else {
        let last = pieces_on(true, path).last();
        &&& no_colon(path) && !rooted(slashed(true, path)) && !begins_with(dir, "\\\\"@)
            ==> put_behind(true, dir, path, r)
        &&& portable(path) && rooted(path) && portable(dir) ==> r == path
        &&& bare_on(true, path) && names(last) && last != ".."@ ==> {
            ||| ends_in_name(r, last)
            ||| dir.len() > 0 && dir.last() == ':' && r == dir + path
        }
    }
}

/// Whether a path is what the platform makes of another that is taken from a directory.
pub open spec fn taken_from(dir: Seq<char>, path: Seq<char>, r: Seq<char>) -> bool {
    exists|windows: bool| #[trigger] join_on(windows, dir, path, r)
}

/// What is known of a path that is taken from a directory on a platform, one piece of a way after
/// the other.
pub open spec fn reached_on(
    windows: bool,
    dir: Seq<char>,
    way: Seq<Seq<char>>,
    r: Seq<char>,
) -> bool
    decreases way.len(),
{
    if way.len() == 0 {
        r == dir
    } else {
        exists|mid: Seq<char>|
            reached_on(windows, dir, way.drop_last(), mid) && #[trigger] join_on(
                windows,
                mid,
                way.last(),
                r,
            )
    }
}

/// Whether a path is what the platform makes of a way that is taken from a directory.
pub open spec fn reached(dir: Seq<char>, way: Seq<Seq<char>>, r: Seq<char>) -> bool {
    exists|windows: bool| #[trigger] reached_on(windows, dir, way, r)
}

/// `std::path::PathBuf::from_iter`, which pushes one piece after the other: a way taken from a
/// directory on this platform. Which kind of platform it is stays open, but it is the same for the
/// whole way. What is claimed of `push` on each kind: it puts a separator of the platform between
/// where none stands, and a path with a root replaces what it is pushed to, on Windows up to the
/// prefix.
#[verifier::external_body]
fn collect_path(pieces: &Vec<String>) -> (r: String)
    requires
        pieces@.len() > 0,
    ensures
        reached(pieces@[0]@, texts(pieces@.skip(1)), r@),
{
    pieces.iter().collect::<std::path::PathBuf>().to_string_lossy().into_owned()
}

/// A way taken from a directory.
pub fn join_way(dir: &str, way: Vec<String>) -> (r: String)
    ensures
        reached(dir@, texts(way@), r@),
{
    let ghost pieces = way@;
    let mut way = way;
    way.insert(0, dir.to_owned());
    assert(way@.skip(1) =~= pieces);
    collect_path(&way)
}

/// A path taken from a directory.
pub fn join_path(dir: &str, path: &str) -> (r: String)
    ensures
        taken_from(dir@, path@, r@),
{
    let mut way: Vec<String> = Vec::new();
    way.push(path.to_owned());
    let ghost pieces = texts(way@);
    assert(pieces =~= seq![path@]);
    let r = join_way(dir, way);
    proof {
        let windows = choose|windows: bool| #[trigger] reached_on(windows, dir@, pieces, r@);
        let mid = choose|mid: Seq<char>|
            reached_on(windows, dir@, pieces.drop_last(), mid) && #[trigger] join_on(
                windows,
                mid,
                pieces.last(),
                r@,
            );
        assert(mid == dir@);
        assert(join_on(windows, dir@, path@, r@));
    }
    r
}

/// Whether a path that is cut at `/` is another one or lies below it.
pub open spec fn lies_under(path: Seq<char>, root: Seq<char>) -> bool {
    slash_parts(root).is_prefix_of(slash_parts(path))
}

/// Whether every piece of a path names something.
pub open spec fn tidy(path: Seq<char>) -> bool {
    path.len() > 0 && names_between(path) == split_on(path, '/')
}

/// Whether a path is a root, a separator of a platform and a tail of which every piece names
/// something.
pub open spec fn has_tail(windows: bool, path: Seq<char>, root: Seq<char>, tail: Seq<char>) -> bool {
    &&& root.len() > 0 && root.last() != '/'
    &&& tidy(slashed(windows, tail))
    &&& if !windows {
        path == root + "/"@ + tail
    } else {
        &&& root.last() != '\\' && root.last() != ':'
        &&& !two_separators(root) && no_colon(tail)
        &&& path == root + "/"@ + tail || path == root + "\\"@ + tail
    }
}

/// What is known of what is left of a path below a root on a platform. Where neither has a prefix,
/// something is left exactly where the path lies under the root; and of a root, a separator and a
/// tail the tail is left.
pub open spec fn below_on(
    windows: bool,
    path: Seq<char>,
    root: Seq<char>,
    rest: Option<Seq<char>>,
) -> bool {
    &&& bare_on(windows, path) && bare_on(windows, root) ==> (rest is Some <==> lies_under(
        slashed(windows, path),
        slashed(windows, root),
    ))
    &&& forall|tail: Seq<char>| #[trigger]
        has_tail(windows, path, root, tail) ==> rest == Some(tail)
}

/// Whether something is what the platform finds left of a path below a root.
pub open spec fn left_below(path: Seq<char>, root: Seq<char>, rest: Option<Seq<char>>) -> bool {
    exists|windows: bool| #[trigger] below_on(windows, path, root, rest)
}

/// `std::path::Path::strip_prefix`: what is left of a path below a root, on this platform; nothing
/// where the path does not lie under it. Parts are compared, not texts. Which kind of platform it is
/// stays open. Not said is how the rest of an untidy path is written, and, of a path or root with a
/// prefix, whether anything is left but a tail behind the text of the root and a separator.
#[verifier::external_body]
pub(crate) fn path_below(path: &str, root: &str) -> (r: Option<String>)
    ensures
        left_below(path@, root@, r.deep_view()),
{
    match std::path::Path::new(path).strip_prefix(root) {
        Ok(rest) => Some(rest.to_string_lossy().into_owned()),
        Err(_) => None,
    }
}

/// A path as it is shown, given what is left of it below the root: with `/` between its parts.
pub open spec fn shown_path(path: Seq<char>, rest: Option<Seq<char>>) -> Seq<char> {
    char_replaced(
        match rest {
            Some(below) => below,
            None => path,
        },
        '\\',
        '/',
    )
}

/// A path as it is shown, given what is left of it below the root.
pub fn show_path(path: &str, rest: &Option<String>) -> (r: String)
    ensures
        r@ == shown_path(path@, rest.deep_view()),
{
    match rest {
        Some(below) => replace_char(below.as_str(), '\\', '/'),
        None => replace_char(path, '\\', '/'),
    }
}

/// A path as it is shown from a root.
pub fn relative(root: &str, path: &str) -> (r: String)
    ensures
        exists|rest: Option<Seq<char>>|
            left_below(path@, root@, rest) && r@ == #[trigger] shown_path(path@, rest),
{
    let rest = path_below(path, root);
    let r = show_path(path, &rest);
    assert(r@ == shown_path(path@, rest.deep_view()));
    r
}

// ---------------------------------------------------------------------------------------------
// Names
// ---------------------------------------------------------------------------------------------

/// Whether a lower-case name is that of a file that holds secrets.
pub open spec fn secret_name(name: Seq<char>) -> bool {
    ||| name == ".env"@
    ||| begins_with(name, ".env."@)
    ||| finishes_with(name, ".pem"@)
    ||| finishes_with(name, ".key"@)
    ||| name == "id_rsa"@
    ||| name == "id_ed25519"@
    ||| name == "credentials"@
}

/// Whether parts lead to or through something that holds secrets.
pub open spec fn holds_secret(parts: Seq<PartView>) -> bool {
    exists|i: int|
        0 <= i < parts.len() && secret_name(ascii_lower(part_text(#[trigger] parts[i])))
}

/// Whether parts go up.
pub open spec fn goes_up(parts: Seq<PartView>) -> bool {
    exists|i: int| 0 <= i < parts.len() && (#[trigger] parts[i]) is Parent
}

/// The name that parts end in; nothing where they end in something else.
pub open spec fn last_name(parts: Seq<PartView>) -> Option<Seq<char>> {
    if parts.len() == 0 {
        None
    } else {
        match parts.last() {
            PartView::Name(name) => Some(name),
            _ => None,
        }
    }
}

/// Whether a lower-case name is that of a file that holds secrets.
pub fn is_secret_name(name: &str) -> (r: bool)
    ensures
        r == secret_name(name@),
{
    same(name, ".env") || starts_with(name, ".env.") || ends_with(name, ".pem") || ends_with(
        name,
        ".key",
    ) || same(name, "id_rsa") || same(name, "id_ed25519") || same(name, "credentials")
}

/// Whether parts lead to or through something that holds secrets.
pub fn parts_hold_a_secret(parts: &Vec<PathPart>) -> (r: bool)
    ensures
        r == holds_secret(parts.deep_view()),
{
    let ghost all = parts.deep_view();
    let mut i: usize = 0;
    while i < parts.len()
        invariant
            i <= parts@.len(),
            all == parts.deep_view(),
            forall|k: int|
                0 <= k < i ==> !secret_name(ascii_lower(part_text(#[trigger] all[k]))),
        decreases parts.len() - i,
    {
        assert(all[i as int] == parts@[i as int]@);
        if is_secret_name(lower_ascii(show_part(&parts[i])).as_str()) {
            return true;
        }
        i += 1;
    }
    false
}

/// Whether parts go up.
pub fn parts_go_up(parts: &Vec<PathPart>) -> (r: bool)
    ensures
        r == goes_up(parts.deep_view()),
{
    let ghost all = parts.deep_view();
    let mut i: usize = 0;
    while i < parts.len()
        invariant
            i <= parts@.len(),
            all == parts.deep_view(),
            forall|k: int| 0 <= k < i ==> !((#[trigger] all[k]) is Parent),
        decreases parts.len() - i,
    {
        assert(all[i as int] == parts@[i as int]@);
        if let PathPart::Parent = &parts[i] {
            return true;
        }
        i += 1;
    }
    false
}

/// The name that parts end in; nothing where they end in something else.
pub fn last_of(parts: &Vec<PathPart>) -> (r: Option<String>)
    ensures
        r.deep_view() == last_name(parts.deep_view()),
{
    if parts.len() == 0 {
        return None;
    }
    assert(parts.deep_view().last() == parts@[parts@.len() - 1]@);
    match &parts[parts.len() - 1] {
        PathPart::Name(name) => Some(name.clone()),
        _ => None,
    }
}

/// Whether a path leads to or through something that holds secrets.
pub fn secret_path(path: &str) -> (r: bool)
    ensures
        exists|parts: Seq<PartView>|
            taken_apart(path@, parts) && r == #[trigger] holds_secret(parts),
{
    let parts = path_parts(path);
    let r = parts_hold_a_secret(&parts);
    assert(r == holds_secret(parts.deep_view()));
    r
}

/// Whether a name is the one that a path ends in on a platform.
pub open spec fn ends_in(path: Seq<char>, name: Option<Seq<char>>) -> bool {
    exists|parts: Seq<PartView>| taken_apart(path, parts) && name == #[trigger] last_name(parts)
}

/// The name that a path ends in; nothing where it ends in `..` or names nothing.
pub fn file_name(path: &str) -> (r: Option<String>)
    ensures
        ends_in(path@, r.deep_view()),
{
    let parts = path_parts(path);
    let r = last_of(&parts);
    assert(r.deep_view() == last_name(parts.deep_view()));
    r
}

// ---------------------------------------------------------------------------------------------
// Laws
// ---------------------------------------------------------------------------------------------

proof fn split_on_append(a: Seq<char>, b: Seq<char>, c: char)
    ensures
        split_on(a + seq![c] + b, c) == split_on(a, c) + split_on(b, c),
    decreases a.len(),
{
    let all = a + seq![c] + b;
    index_of_char_is_first(a, c);
    index_of_char_is_first(all, c);
    let n = index_of_char(a, c);
    if n < a.len() {
        assert(all[n] == c);
        assert forall|i: int| 0 <= i < n implies all[i] != c by {
            assert(all[i] == a[i]);
        }
        assert(index_of_char(all, c) == n);
        assert(all.take(n) =~= a.take(n));
        assert(all.skip(n + 1) =~= a.skip(n + 1) + seq![c] + b);
        split_on_append(a.skip(n + 1), b, c);
        assert(split_on(all, c) =~= split_on(a, c) + split_on(b, c));
    } else {
        assert(all[a.len() as int] == c);
        assert forall|i: int| 0 <= i < a.len() implies all[i] != c by {
            assert(all[i] == a[i]);
        }
        assert(index_of_char(all, c) == a.len());
        assert(all.take(a.len() as int) =~= a);
        assert(all.skip(a.len() as int + 1) =~= b);
        assert(split_on(all, c) =~= split_on(a, c) + split_on(b, c));
    }
}

proof fn named_append(a: Seq<Seq<char>>, b: Seq<Seq<char>>)
    ensures
        named(a + b) == named(a) + named(b),
    decreases b.len(),
{
    if b.len() == 0 {
        assert(a + b =~= a);
        assert(named(a) + named(b) =~= named(a));
    } else {
        assert((a + b).drop_last() =~= a + b.drop_last());
        assert((a + b).last() == b.last());
        named_append(a, b.drop_last());
        assert(named(a + b) =~= named(a) + named(b));
    }
}

/// A path put behind a directory and a separator has the names of the directory and then its own.
pub proof fn joined_path_has_both_names(dir: Seq<char>, path: Seq<char>)
    ensures
        names_between(dir + "/"@ + path) == names_between(dir) + names_between(path),
{
    reveal_strlit("/");
    assert("/"@ =~= seq!['/']);
    split_on_append(dir, path, '/');
    named_append(split_on(dir, '/'), split_on(path, '/'));
}

/// A portable path without a root that is put behind a portable directory is portable and lies under
/// the directory.
pub proof fn relative_paths_stay_inside(dir: Seq<char>, path: Seq<char>)
    requires
        portable(dir),
        dir.len() > 0,
        dir.last() != '/',
        portable(path),
        !rooted(path),
    ensures
        portable(dir + "/"@ + path),
        lies_under(dir + "/"@ + path, dir),
{
    reveal_strlit("/");
    assert("/"@ =~= seq!['/']);
    let all = dir + "/"@ + path;
    assert forall|i: int| 0 <= i < all.len() implies #[trigger] all[i] != '\\' && all[i] != ':' by {
        if i < dir.len() {
            assert(all[i] == dir[i]);
        } else if i > dir.len() {
            assert(all[i] == path[i - dir.len() - 1]);
        }
    }
    assert(all[0] == dir[0]);
    if dir.len() == 1 {
        assert(dir[0] == dir.last());
    } else {
        assert(all[1] == dir[1]);
    }
    joined_path_has_both_names(dir, path);
    split_on_append(dir, path, '/');
    index_of_char_is_first(dir, '/');
    assert(split_on(all, '/')[0] == split_on(dir, '/')[0]);
    assert(slash_head(all) == slash_head(dir));
    let part = |name: Seq<char>| name_part(name);
    assert(slash_parts(all) =~= slash_parts(dir) + names_between(path).map_values(part));
    assert(slash_parts(dir).is_prefix_of(slash_parts(all)));
}

/// A portable path is cut at the same places on every platform and has no prefix on any.
pub proof fn portable_paths_are_cut_alike(windows: bool, path: Seq<char>)
    requires
        portable(path),
    ensures
        slashed(windows, path) == path,
        bare_on(windows, path),
{
    assert(slashed(windows, path) =~= path);
}

/// A portable path has the same parts on every platform.
pub proof fn portable_paths_mean_the_same(path: Seq<char>, parts: Seq<PartView>)
    requires
        portable(path),
        taken_apart(path, parts),
    ensures
        parts == slash_parts(path),
{
    let windows = choose|windows: bool| #[trigger] parts_on(windows, path, parts);
    portable_paths_are_cut_alike(windows, path);
}

/// Of portable paths something is left exactly where the path lies under the root, on every
/// platform.
pub proof fn portable_paths_are_compared_alike(
    path: Seq<char>,
    root: Seq<char>,
    rest: Option<Seq<char>>,
)
    requires
        portable(path),
        portable(root),
        left_below(path, root, rest),
    ensures
        rest is Some <==> lies_under(path, root),
{
    let windows = choose|windows: bool| #[trigger] below_on(windows, path, root, rest);
    portable_paths_are_cut_alike(windows, path);
    portable_paths_are_cut_alike(windows, root);
}

proof fn named_piece_is_kept(pieces: Seq<Seq<char>>, i: int)
    requires
        0 <= i < pieces.len(),
        names(pieces[i]),
    ensures
        named(pieces).contains(pieces[i]),
    decreases pieces.len(),
{
    let before = named(pieces.drop_last());
    if i == pieces.len() - 1 {
        assert(named(pieces)[before.len() as int] == pieces[i]);
    } else {
        named_piece_is_kept(pieces.drop_last(), i);
        let k = choose|k: int| 0 <= k < before.len() && before[k] == pieces[i];
        assert(named(pieces)[k] == pieces[i]);
    }
}

/// Whether a piece may be said to be found in a path on a platform: on Windows where the piece
/// holds no colon and the path does not begin with two separators.
pub open spec fn is_sure(windows: bool, path: Seq<char>, piece: Seq<char>) -> bool {
    windows ==> no_colon(piece) && !two_separators(path)
}

/// What a piece between the separators of a platform names is among the parts.
pub proof fn pieces_are_found(windows: bool, path: Seq<char>, parts: Seq<PartView>, i: int)
    requires
        parts_on(windows, path, parts),
        0 <= i < pieces_on(windows, path).len(),
        is_sure(windows, path, pieces_on(windows, path)[i]),
    ensures
        piece_found(pieces_on(windows, path)[i], parts),
{
    let piece = pieces_on(windows, path)[i];
    if !windows && names(piece) {
        named_piece_is_kept(split_on(path, '/'), i);
        let all = names_between(path);
        let k = choose|k: int| 0 <= k < all.len() && all[k] == piece;
        assert(parts[slash_head(path).len() + k] == name_part(piece));
    }
}

/// Whether a piece holds neither `\` nor `:`.
pub open spec fn plain(piece: Seq<char>) -> bool {
    forall|i: int| 0 <= i < piece.len() ==> #[trigger] piece[i] != '\\' && piece[i] != ':'
}

proof fn plain_pieces_are_cut_alike(path: Seq<char>, i: int)
    requires
        0 <= i < split_on(path, '/').len(),
        plain(split_on(path, '/')[i]),
    ensures
        pieces_on(true, path).contains(split_on(path, '/')[i]),
    decreases path.len(),
{
    index_of_char_is_first(path, '/');
    let n = index_of_char(path, '/');
    if n < path.len() {
        let head = path.take(n);
        let tail = path.skip(n + 1);
        let first = slashed(true, head);
        let after = slashed(true, tail);
        assert(slashed(true, path) =~= first + seq!['/'] + after);
        split_on_append(first, after, '/');
        if i == 0 {
            assert(first =~= head);
            index_of_char_is_first(head, '/');
            assert(split_on(head, '/') =~= seq![head]);
            assert(pieces_on(true, path)[0] == head);
        } else {
            assert(split_on(path, '/')[i] == split_on(tail, '/')[i - 1]);
            plain_pieces_are_cut_alike(tail, i - 1);
            let k = choose|k: int|
                0 <= k < pieces_on(true, tail).len() && pieces_on(true, tail)[k] == split_on(
                    tail,
                    '/',
                )[i - 1];
            assert(pieces_on(true, path)[split_on(first, '/').len() + k] == split_on(path, '/')[i]);
        }
    } else {
        assert(slashed(true, path) =~= path);
        assert(pieces_on(true, path)[0] == split_on(path, '/')[i]);
    }
}

/// In a path that does not begin with two separators, what a plain piece between slashes names is
/// among the parts on every platform.
pub proof fn plain_pieces_are_found(path: Seq<char>, parts: Seq<PartView>, i: int)
    requires
        taken_apart(path, parts),
        !two_separators(path),
        0 <= i < split_on(path, '/').len(),
        plain(split_on(path, '/')[i]),
    ensures
        piece_found(split_on(path, '/')[i], parts),
{
    let windows = choose|windows: bool| #[trigger] parts_on(windows, path, parts);
    let piece = split_on(path, '/')[i];
    if windows {
        plain_pieces_are_cut_alike(path, i);
        let k = choose|k: int|
            0 <= k < pieces_on(true, path).len() && pieces_on(true, path)[k] == piece;
        pieces_are_found(true, path, parts, k);
    } else {
        pieces_are_found(false, path, parts, i);
    }
}

/// Whether a text is a name on every platform.
pub open spec fn is_name(name: Seq<char>) -> bool {
    names(name) && name != ".."@ && plain(name) && forall|i: int|
        0 <= i < name.len() ==> #[trigger] name[i] != '/'
}

proof fn last_piece_of(head: Seq<char>, name: Seq<char>)
    requires
        is_name(name),
    ensures
        split_on(head + "/"@ + name, '/').last() == name,
        split_on(name, '/') == seq![name],
{
    reveal_strlit("/");
    assert("/"@ =~= seq!['/']);
    index_of_char_is_first(name, '/');
    assert(split_on(name, '/') =~= seq![name]);
    split_on_append(head, name, '/');
}

/// A path that is made of a directory and a name ends in the name; behind a bare drive no separator
/// stands before it.
pub proof fn joined_paths_end_in_the_name(
    windows: bool,
    dir: Seq<char>,
    name: Seq<char>,
    path: Seq<char>,
)
    requires
        join_on(windows, dir, name, path),
        is_name(name),
    ensures
        ends_in_name(path, name) || windows && dir.len() > 0 && dir.last() == ':' && path == dir
            + name,
        !windows && path.len() > name.len() ==> path[path.len() - name.len() - 1] == '/',
{
    reveal_strlit("/");
    if windows {
        assert(slashed(true, name) =~= name);
        last_piece_of(name, name);
        assert(pieces_on(true, name).last() == name);
    } else {
        assert(!rooted(name));
        assert(path.skip(path.len() - name.len()) =~= name);
    }
}

/// A path that is made of a directory and a name on a platform has the name among its parts there;
/// on Windows this is said of paths that do not begin with two separators, and not of a bare drive.
pub proof fn joined_names_are_found(
    windows: bool,
    dir: Seq<char>,
    name: Seq<char>,
    path: Seq<char>,
    parts: Seq<PartView>,
)
    requires
        join_on(windows, dir, name, path),
        is_name(name),
        windows ==> !two_separators(path) && !(dir.len() > 0 && dir.last() == ':'),
        parts_on(windows, path, parts),
    ensures
        parts.contains(PartView::Name(name)),
{
    reveal_strlit("/");
    joined_paths_end_in_the_name(windows, dir, name, path);
    let cut = slashed(windows, path);
    let at = path.len() - name.len();
    assert(cut.skip(at) =~= name) by {
        assert forall|i: int| 0 <= i < name.len() implies cut.skip(at)[i] == name[i] by {
            assert(path.skip(at)[i] == path[at + i]);
        }
    }
    if at == 0 {
        assert(cut =~= name);
        last_piece_of(name, name);
    } else {
        let head = cut.take(at - 1);
        assert(cut =~= head + "/"@ + name) by {
            assert forall|i: int| 0 <= i < cut.len() implies cut[i] == (head + "/"@ + name)[i] by {
                if i >= at {
                    assert(cut[i] == cut.skip(at)[i - at]);
                }
            }
        }
        last_piece_of(head, name);
    }
    pieces_are_found(windows, path, parts, pieces_on(windows, path).len() - 1);
}

/// What is left of the pieces of a path are those that name something, in their order.
pub proof fn pieces_that_name_are_kept(pieces: Seq<Seq<char>>)
    ensures
        named(pieces) == pieces.filter(|piece: Seq<char>| piece.len() > 0 && piece != "."@),
    decreases pieces.len(),
{
    reveal(Seq::filter);
    if pieces.len() > 0 {
        pieces_that_name_are_kept(pieces.drop_last());
    }
}

/// Files with settings of the environment, keys and credentials are secret, whatever else their
/// names hold.
pub proof fn names_of_keys_are_secret(rest: Seq<char>)
    ensures
        secret_name(".env"@),
        secret_name(".env."@ + rest),
        secret_name(rest + ".pem"@),
        secret_name(rest + ".key"@),
        secret_name("id_rsa"@),
        secret_name("id_ed25519"@),
        secret_name("credentials"@),
{
    let a = ".env."@ + rest;
    let b = rest + ".pem"@;
    let c = rest + ".key"@;
    assert(a.subrange(0, ".env."@.len() as int) =~= ".env."@);
    assert(b.subrange(b.len() - ".pem"@.len(), b.len() as int) =~= ".pem"@);
    assert(c.subrange(c.len() - ".key"@.len(), c.len() as int) =~= ".key"@);
}

} // verus!
