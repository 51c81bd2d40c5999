//! The tools that read and change the files of a workspace and run commands in it.
//!
//! What a tool does to the file system happens outside; here is what it is asked for, what it
//! refuses, and what it answers.
use crate::json::{bool_in, json_views, member, text_in, unsigned_in, Json, JsonView, ObjectBuilder};
use crate::order::{sort_texts, sorted_texts};
use crate::paths::{
    bare_on, below_on, goes_up, has_tail, holds_secret, is_sure, join_path, left_below, lies_under,
    name_part, names, part_text, parts_go_up, parts_hold_a_secret, parts_on, path_below, path_parts,
    piece_found, pieces_are_found, pieces_on, plain, plain_pieces_are_found, portable,
    portable_paths_are_compared_alike, portable_paths_are_cut_alike, secret_name, secret_path,
    show_part, show_path, shown_path, slashed, taken_apart, taken_from, tidy, two_separators,
    PartView, PathPart,
};
use crate::patterns::{
    detect_secret, is_match, make_regex, regex_error, regex_matches, regex_pattern, secret_in,
};
use crate::schema::{
    any_text, any_text_schema, begin_schema, object_with, one_name, only, only_schema, open_schema,
    positive, positive_schema, switch, switch_schema, text_with_default, text_with_default_schema,
    typed,
};
use crate::text::{
    ascii_lower, blank, cat2, cat3, cat4, cat5, char_replaced, chars_of, count_chars,
    count_occurrences, decimal, first_replaced, is_blank, join, joined, joined_words_are_found,
    lines, lossy_text, lossy_utf8, number_text, occurrences, outcome, pad_start, padded_start,
    replace_first, same, signed_decimal, signed_text, split_lines, split_on, split_words,
    take_chars, taken, text_of_utf8, texts, words, words_are_words,
};
use crate::tool::{define, FileChange, ToolPermissionDescription, ToolResult, ToolResultMetadata};
use crate::types::{AgentToolDefinition, DefinitionView};
use vstd::prelude::*;
use vstd::utf8::{decode_utf8, valid_utf8};

verus! {

// ---------------------------------------------------------------------------------------------
// Arguments and results
// ---------------------------------------------------------------------------------------------

/// The text of an argument that must be there.
pub open spec fn text_arg(args: JsonView, key: Seq<char>) -> Result<Seq<char>, Seq<char>> {
    match text_in(member(args, key)) {
        Some(s) => if s.len() > 0 {
            Ok(s)
        } else {
            Err(key + " must be a non-empty string."@)
        },
        None => Err(key + " must be a non-empty string."@),
    }
}

/// The text of an argument that must be there.
pub fn string<'a>(args: &'a Json, key: &str) -> (r: Result<&'a str, String>)
    ensures
        match r {
            Ok(s) => text_arg(args@, key@) == Ok::<Seq<char>, Seq<char>>(s@),
            Err(e) => text_arg(args@, key@) == Err::<Seq<char>, Seq<char>>(e@),
        },
{
    if let Some(value) = args.get(key) {
        if let Some(s) = value.as_str() {
            if chars_of(s).len() > 0 {
                return Ok(s);
            }
        }
    }
    Err(cat2(key, " must be a non-empty string."))
}

/// The text of an argument, or another where it is not given.
pub open spec fn text_or(args: JsonView, key: Seq<char>, other: Seq<char>) -> Seq<char> {
    match text_in(member(args, key)) {
        Some(s) => s,
        None => other,
    }
}

/// The text of an argument, or another where it is not given.
pub fn string_or<'a>(args: &'a Json, key: &str, other: &'a str) -> (r: &'a str)
    ensures
        r@ == text_or(args@, key@, other@),
{
    if let Some(value) = args.get(key) {
        if let Some(s) = value.as_str() {
            return s;
        }
    }
    other
}

/// The number of an argument, which must lie within bounds.
pub open spec fn number_arg(args: JsonView, key: Seq<char>, default: nat, min: nat, max: nat) -> Result<
    nat,
    Seq<char>,
> {
    let value = match unsigned_in(member(args, key)) {
        Some(n) => n,
        None => default,
    };
    if value < min || value > max {
        Err(key + " must be from "@ + decimal(min) + " to "@ + decimal(max) + "."@)
    } else {
        Ok(value)
    }
}

/// The number of an argument, which must lie within bounds.
pub fn integer(args: &Json, key: &str, default: u64, min: u64, max: u64) -> (r: Result<u64, String>)
    ensures
        match r {
            Ok(n) => number_arg(args@, key@, default as nat, min as nat, max as nat) == Ok::<
                nat,
                Seq<char>,
            >(n as nat),
            Err(e) => number_arg(args@, key@, default as nat, min as nat, max as nat) == Err::<
                nat,
                Seq<char>,
            >(e@),
        },
{
    let mut value: u64 = default;
    if let Some(given) = args.get(key) {
        if let Some(n) = given.as_u64() {
            value = n;
        }
    }
    if value < min || value > max {
        let bounds = cat4(
            " must be from ",
            number_text(min).as_str(),
            " to ",
            number_text(max).as_str(),
        );
        let message = cat3(key, bounds.as_str(), ".");
        assert(message@ =~= key@ + " must be from "@ + decimal(min as nat) + " to "@ + decimal(
            max as nat,
        ) + "."@);
        Err(message)
    } else {
        Ok(value)
    }
}

/// A result cut to the length that the model is given.
pub open spec fn cut(value: Seq<char>) -> Seq<char> {
    if value.len() > 30000 {
        value.take(30000) + "\n[result truncated]"@
    } else {
        value
    }
}

/// Cuts a result to the length that the model is given.
pub fn truncate(value: String) -> (r: String)
    ensures
        r@ == cut(value@),
{
    if count_chars(value.as_str()) > 30000 {
        cat2(take_chars(value.as_str(), 30000).as_str(), "\n[result truncated]")
    } else {
        value
    }
}

/// A result or an error without metadata.
pub fn result(value: Result<String, String>) -> (r: ToolResult)
    ensures
        match value {
            Ok(v) => r.result == v && !r.is_error,
            Err(e) => r.result == e && r.is_error,
        },
        r.metadata.is_default(),
{
    match value {
        Ok(v) => ToolResult::ok(v),
        Err(e) => ToolResult::error(e),
    }
}

// ---------------------------------------------------------------------------------------------
// The workspace
// ---------------------------------------------------------------------------------------------

/// The directory that the tools are kept to; the root is an absolute path without links.
#[derive(Debug, Clone, PartialEq, Eq)]
pub struct WorkspacePolicy {
    root: String,
}

/// What the file system says of a path: where it really leads, whether that is a directory, and
/// whether the ignore files of the workspace leave it out.
#[derive(Debug, PartialEq, Eq)]
pub struct Found {
    pub canonical: Result<String, String>,
    pub is_dir: Result<bool, String>,
    pub ignored: bool,
}

/// Where a path that is to be read leads, and how it is shown; or why it may not be read. `parts`
/// are the parts of the path, and `rest` is what is left below the root of where it leads.
pub open spec fn readable(
    parts: Seq<PartView>,
    rest: Option<Seq<char>>,
    directory: bool,
    found: Found,
) -> Result<(Seq<char>, Seq<char>), Seq<char>> {
    if holds_secret(parts) {
        Err("Secret or protected files cannot be accessed."@)
    } else {
        match found.canonical {
            Err(e) => Err(e@),
            Ok(actual) => if rest is None {
                Err("Path escapes the workspace."@)
            } else {
                match found.is_dir {
                    Err(e) => Err(e@),
                    Ok(is_dir) => if directory != is_dir {
                        Err(
                            if directory {
                                "Expected a directory."@
                            } else {
                                "Expected a file."@
                            },
                        )
                    } else if found.ignored {
                        Err("Path is ignored by .gitignore or .roninignore."@)
                    } else {
                        Ok((actual@, shown_path(actual@, rest)))
                    },
                }
            },
        }
    }
}

/// Where a path that is to be read leads, and how it is shown, given its parts and what is left
/// below the root of where it leads.
pub fn resolve_found(
    parts: &Vec<PathPart>,
    rest: &Option<String>,
    directory: bool,
    found: Found,
) -> (r: Result<(String, String), String>)
    ensures
        outcome(r) == readable(parts.deep_view(), rest.deep_view(), directory, found),
{
    if parts_hold_a_secret(parts) {
        return Err("Secret or protected files cannot be accessed.".to_owned());
    }
    let actual = match found.canonical {
        Ok(actual) => actual,
        Err(e) => return Err(e),
    };
    if rest.is_none() {
        return Err("Path escapes the workspace.".to_owned());
    }
    let is_dir = match found.is_dir {
        Ok(is_dir) => is_dir,
        Err(e) => return Err(e),
    };
    if directory != is_dir {
        return Err(
            if directory {
                "Expected a directory.".to_owned()
            } else {
                "Expected a file.".to_owned()
            },
        );
    }
    if found.ignored {
        return Err("Path is ignored by .gitignore or .roninignore.".to_owned());
    }
    let shown = show_path(actual.as_str(), rest);
    Ok((actual, shown))
}

/// A path that is to be written, how it is shown, and the steps that lead to it from the root.
#[derive(Debug, PartialEq, Eq)]
pub struct WriteTarget {
    pub path: String,
    pub shown: String,
    pub steps: Vec<String>,
}

/// The path that a value to be written names, and how it is shown; or why it may not be written,
/// whatever the file system says. `parts` are the parts of the value, `path` is the value taken from
/// the root, and `rest` what is left of that below the root.
pub open spec fn targeted(
    value: Seq<char>,
    parts: Seq<PartView>,
    path: Seq<char>,
    rest: Option<Seq<char>>,
) -> Result<(Seq<char>, Seq<char>), Seq<char>> {
    if blank(value) || holds_secret(parts) {
        Err("Secret, protected, or empty paths cannot be written."@)
    } else if goes_up(parts) {
        Err("Path traversal is not allowed."@)
    } else if rest is None {
        Err("Path escapes the workspace."@)
    } else {
        Ok((path, shown_path(path, rest)))
    }
}

/// The path that a value to be written names, and how it is shown, given the parts of the value, the
/// value taken from the root, and what is left of that below the root.
pub fn check_target(
    value: &str,
    parts: &Vec<PathPart>,
    path: String,
    rest: &Option<String>,
) -> (r: Result<(String, String), String>)
    ensures
        outcome(r) == targeted(value@, parts.deep_view(), path@, rest.deep_view()),
{
    if is_blank(value) || parts_hold_a_secret(parts) {
        return Err("Secret, protected, or empty paths cannot be written.".to_owned());
    }
    if parts_go_up(parts) {
        return Err("Path traversal is not allowed.".to_owned());
    }
    if rest.is_none() {
        return Err("Path escapes the workspace.".to_owned());
    }
    let shown = show_path(path.as_str(), rest);
    Ok((path, shown))
}

/// Whether steps lead from a root along some parts, one after the other.
pub open spec fn steps_along(root: Seq<char>, way: Seq<PartView>, steps: Seq<Seq<char>>) -> bool {
    steps.len() == way.len() && forall|i: int|
        0 <= i < way.len() ==> taken_from(
            if i == 0 {
                root
            } else {
                steps[i - 1]
            },
            part_text(way[i]),
            #[trigger] steps[i],
        )
}

/// The first step that is a link or could not be looked at.
pub open spec fn link_problem(probes: Seq<Result<bool, String>>) -> Option<Seq<char>>
    decreases probes.len(),
{
    if probes.len() == 0 {
        None
    } else {
        match probes[0] {
            Err(e) => Some(e@),
            Ok(true) => Some("Traversal through symlinks is not allowed for writes."@),
            Ok(false) => link_problem(probes.skip(1)),
        }
    }
}

/// Where a path that is to be written leads, and how it is shown; or why it may not be written.
/// `probes` says of each step of the way whether it is a link.
pub open spec fn writable(
    path: Seq<char>,
    shown: Seq<char>,
    probes: Seq<Result<bool, String>>,
    ignored: bool,
) -> Result<(Seq<char>, Seq<char>), Seq<char>> {
    match link_problem(probes) {
        Some(e) => Err(e),
        None => if ignored {
            Err("Path is ignored by .gitignore or .roninignore."@)
        } else {
            Ok((path, shown))
        },
    }
}

/// Whether a result is the target of a value to be written, or why there is none: `parts` are what
/// the platform finds in the value, `path` is the value taken from the root, and `rest` what is
/// left of that below the root.
pub open spec fn gives_target(
    r: Result<WriteTarget, String>,
    root: Seq<char>,
    value: Seq<char>,
    parts: Seq<PartView>,
    path: Seq<char>,
    rest: Option<Seq<char>>,
) -> bool {
    &&& taken_apart(value, parts)
    &&& taken_from(root, value, path)
    &&& left_below(path, root, rest)
    &&& match targeted(value, parts, path, rest) {
        Err(e) => r matches Err(error) && error@ == e,
        Ok((p, shown)) => r matches Ok(t) && t.path@ == p && t.shown@ == shown && exists|
            way: Seq<PartView>,
        |
            taken_apart(rest->0, way) && #[trigger] steps_along(root, way, texts(t.steps@)),
    }
}

impl WorkspacePolicy {
    /// The root.
    pub closed spec fn base(self) -> Seq<char> {
        self.root@
    }

    /// A policy for a root.
    pub fn new(root: String) -> (r: Self)
        ensures
            r.base() == root@,
    {
        WorkspacePolicy { root }
    }

    /// The root.
    pub fn root(&self) -> (r: &str)
        ensures
            r@ == self.base(),
    {
        self.root.as_str()
    }

    /// The path that a value names.
    pub fn candidate(&self, value: &str) -> (r: String)
        ensures
            taken_from(self.base(), value@, r@),
    {
        join_path(self.root.as_str(), value)
    }

    /// Where a path that is to be read leads, and how it is shown. `found` is what the file system
    /// says of [`Self::candidate`].
    pub fn resolve_existing(&self, value: &str, directory: bool, found: Found) -> (r: Result<
        (String, String),
        String,
    >)
        ensures
            exists|parts: Seq<PartView>, rest: Option<Seq<char>>|
                {
                    &&& taken_apart(value@, parts)
                    &&& found.canonical matches Ok(actual) ==> left_below(
                        actual@,
                        self.base(),
                        rest,
                    )
                    &&& outcome(r) == #[trigger] readable(parts, rest, directory, found)
                },
    {
        let parts = path_parts(value);
        let rest = match &found.canonical {
            Ok(actual) => path_below(actual.as_str(), self.root.as_str()),
            Err(_) => None,
        };
        let ghost given = readable(parts.deep_view(), rest.deep_view(), directory, found);
        let r = resolve_found(&parts, &rest, directory, found);
        assert(outcome(r) == given);
        r
    }

    /// The path that a value to be written names, and the steps of the way to it.
    pub fn write_target(&self, value: &str) -> (r: Result<WriteTarget, String>)
        ensures
            exists|parts: Seq<PartView>, path: Seq<char>, rest: Option<Seq<char>>| #[trigger]
                gives_target(r, self.base(), value@, parts, path, rest),
    {
        let parts = path_parts(value);
        let path = join_path(self.root.as_str(), value);
        let ghost whole = path@;
        let ghost mut found: Seq<PartView> = Seq::empty();
        let rest = path_below(path.as_str(), self.root.as_str());
        let r = match check_target(value, &parts, path, &rest) {
            Err(e) => Err(e),
            Ok((path, shown)) => {
                let way = match &rest {
                    Some(below) => path_parts(below.as_str()),
                    None => Vec::new(),
                };
                let steps = self.steps(&way);
                proof {
                    found = way.deep_view();
                }
                Ok(WriteTarget { path, shown, steps })
            },
        };
        proof {
            if r is Ok {
                assert(taken_apart(rest.deep_view()->0, found));
                assert(steps_along(self.base(), found, texts(r->Ok_0.steps@)));
            }
        }
        assert(gives_target(r, self.base(), value@, parts.deep_view(), whole, rest.deep_view()));
        r
    }

    /// The steps that lead from the root along some parts.
    fn steps(&self, way: &Vec<PathPart>) -> (r: Vec<String>)
        ensures
            steps_along(self.base(), way.deep_view(), texts(r@)),
    {
        let ghost all = way.deep_view();
        let mut r: Vec<String> = Vec::new();
        let mut i: usize = 0;
        while i < way.len()
            invariant
                i <= way@.len(),
                r@.len() == i,
                all == way.deep_view(),
                steps_along(self.base(), all.take(i as int), texts(r@)),
            decreases way.len() - i,
        {
            let ghost before = texts(r@);
            assert(all[i as int] == way@[i as int]@);
            let step = if i == 0 {
                join_path(self.root.as_str(), show_part(&way[i]))
            } else {
                assert(before[i - 1] == r@[i - 1]@);
                join_path(r[i - 1].as_str(), show_part(&way[i]))
            };
            r.push(step);
            assert(texts(r@) =~= before.push(step@));
            assert forall|k: int| 0 <= k < i + 1 implies taken_from(
                if k == 0 {
                    self.base()
                } else {
                    texts(r@)[k - 1]
                },
                part_text(all.take(i + 1)[k]),
                #[trigger] texts(r@)[k],
            ) by {
                if k < i {
                    assert(before[k] == texts(r@)[k]);
                    assert(all.take(i as int)[k] == all.take(i + 1)[k]);
                }
            }
            i += 1;
        }
        assert(all.take(i as int) =~= all);
        r
    }

    /// Where a path that is to be written leads, and how it is shown. `probes` says of each step of
    /// the way whether it is a link, and `ignored` whether the ignore files of the workspace leave
    /// the path out.
    pub fn resolve_write(
        &self,
        target: WriteTarget,
        probes: Vec<Result<bool, String>>,
        ignored: bool,
    ) -> (r: Result<(String, String), String>)
        requires
            probes@.len() == target.steps@.len(),
        ensures
            outcome(r) == writable(target.path@, target.shown@, probes@, ignored),
    {
        let mut i: usize = 0;
        assert(probes@.skip(0) =~= probes@);
        while i < probes.len()
            invariant
                i <= probes@.len(),
                link_problem(probes@) == link_problem(probes@.skip(i as int)),
            decreases probes.len() - i,
        {
            assert(probes@.skip(i as int).skip(1) =~= probes@.skip(i + 1));
            match &probes[i] {
                Err(e) => return Err(e.clone()),
                Ok(link) => if *link {
                    return Err(
                        "Traversal through symlinks is not allowed for writes.".to_owned(),
                    );
                },
            }
            i += 1;
        }
        if ignored {
            return Err("Path is ignored by .gitignore or .roninignore.".to_owned());
        }
        Ok((target.path, target.shown))
    }
}

// ---------------------------------------------------------------------------------------------
// read_file
// ---------------------------------------------------------------------------------------------

/// The parameters of `read_file`.
pub open spec fn read_file_properties() -> Map<Seq<char>, JsonView> {
    Map::empty().insert("path"@, any_text()).insert("offset"@, positive(None, 1)).insert(
        "limit"@,
        positive(Some(1000), 200),
    )
}

/// How `read_file` is described to the model.
pub open spec fn read_file_described() -> DefinitionView {
    DefinitionView {
        name: "read_file"@,
        description: "Read a UTF-8 text file inside the workspace with one-based line offsets."@,
        parameters: only(read_file_properties(), seq!["path"@]),
    }
}

/// How `read_file` is described to the model.
pub fn read_file_definition() -> (r: AgentToolDefinition)
    ensures
        r@ == read_file_described(),
{
    let mut properties = ObjectBuilder::new();
    properties.put("path", any_text_schema());
    properties.put("offset", positive_schema(None, 1));
    properties.put("limit", positive_schema(Some(1000), 200));
    define(
        "read_file",
        "Read a UTF-8 text file inside the workspace with one-based line offsets.",
        only_schema(properties, &one_name("path")),
    )
}

/// A page of a file: the path, the number of its first line and how many lines it has at most.
#[derive(Debug, PartialEq, Eq)]
pub struct ReadRequest {
    pub path: String,
    pub offset: u64,
    pub limit: u64,
}

/// The page that the arguments of a call ask for.
pub open spec fn read_request(args: JsonView) -> Result<(Seq<char>, nat, nat), Seq<char>> {
    match text_arg(args, "path"@) {
        Err(e) => Err(e),
        Ok(path) => match number_arg(args, "offset"@, 1, 1, u64::MAX as nat) {
            Err(e) => Err(e),
            Ok(offset) => match number_arg(args, "limit"@, 200, 1, 1000) {
                Err(e) => Err(e),
                Ok(limit) => Ok((path, offset, limit)),
            },
        },
    }
}

/// The page that the arguments of a call ask for.
pub fn parse_read_request(args: &Json) -> (r: Result<ReadRequest, String>)
    ensures
        match r {
            Ok(q) => read_request(args@) == Ok::<(Seq<char>, nat, nat), Seq<char>>(
                (q.path@, q.offset as nat, q.limit as nat),
            ) && 1 <= q.offset && 1 <= q.limit <= 1000,
            Err(e) => read_request(args@) == Err::<(Seq<char>, nat, nat), Seq<char>>(e@),
        },
{
    let path = match string(args, "path") {
        Ok(path) => path.to_owned(),
        Err(e) => return Err(e),
    };
    let offset = match integer(args, "offset", 1, 1, u64::MAX) {
        Ok(offset) => offset,
        Err(e) => return Err(e),
    };
    match integer(args, "limit", 200, 1, 1000) {
        Ok(limit) => Ok(ReadRequest { path, offset, limit }),
        Err(e) => Err(e),
    }
}

/// Refuses a file that is too large to read.
pub fn check_file_size(bytes: u64) -> (r: Result<(), String>)
    ensures
        match r {
            Ok(_) => bytes <= 5 * 1024 * 1024,
            Err(e) => bytes > 5 * 1024 * 1024 && e@ == "File exceeds the 5 MiB read limit."@,
        },
{
    if bytes > 5242880 {
        Err("File exceeds the 5 MiB read limit.".to_owned())
    } else {
        Ok(())
    }
}

/// The last line of a page.
pub open spec fn page_end(count: nat, offset: nat, limit: nat) -> nat {
    if offset - 1 + limit < count {
        (offset - 1 + limit) as nat
    } else {
        count
    }
}

/// Lines with their numbers in front, from the line after the first `from` up to the line `to`.
pub open spec fn numbered(all: Seq<Seq<char>>, from: int, to: int, width: int) -> Seq<Seq<char>> {
    Seq::new(
        (to - from) as nat,
        |i: int| padded_start(decimal((from + i + 1) as nat), width) + ": "@ + all[from + i],
    )
}

/// A page of a file as the model is shown it.
pub open spec fn page(shown: Seq<char>, text: Seq<char>, offset: nat, limit: nat) -> Seq<char> {
    let all = lines(text);
    let count = all.len();
    if offset > count {
        shown + " has "@ + decimal(count) + " line(s); offset "@ + decimal(offset)
            + " is past EOF."@
    } else {
        let end = page_end(count, offset, limit);
        let body = joined(
            numbered(all, offset - 1, end as int, decimal(end).len() as int),
            "\n"@,
        );
        let more = if end < count {
            "\n["@ + decimal((count - end) as nat) + " more line(s)]"@
        } else {
            ""@
        };
        cut(
            shown + " (lines "@ + decimal(offset) + "-"@ + decimal(end) + " of "@ + decimal(count)
                + ")\n"@ + body + more,
        )
    }
}

/// A page of a file as the model is shown it.
pub fn show_page(shown: &str, text: &str, offset: u64, limit: u64) -> (r: String)
    requires
        1 <= offset,
        1 <= limit <= 1000,
    ensures
        r@ == page(shown@, text@, offset as nat, limit as nat),
{
    let all = split_lines(text);
    let count = all.len();
    if offset > count as u64 {
        let r = cat5(
            shown,
            " has ",
            number_text(count as u64).as_str(),
            " line(s); offset ",
            number_text(offset).as_str(),
        );
        return cat2(r.as_str(), " is past EOF.");
    }
    let from: usize = (offset - 1) as usize;
    let end: usize = if (count - from) as u64 > limit {
        from + limit as usize
    } else {
        count
    };
    let width = count_chars(number_text(end as u64).as_str());
    let mut body: Vec<String> = Vec::new();
    let mut i: usize = from;
    while i < end
        invariant
            from <= i <= end <= all@.len(),
            texts(body@) == numbered(lines(text@), from as int, i as int, width as int),
            texts(all@) == lines(text@),
        decreases end - i,
    {
        let number = pad_start(number_text(i as u64 + 1).as_str(), width);
        let line = cat3(number.as_str(), ": ", all[i].as_str());
        let ghost before = texts(body@);
        body.push(line);
        assert(lines(text@)[i as int] == all@[i as int]@);
        assert(texts(body@) =~= before.push(line@));
        assert(texts(body@) =~= numbered(lines(text@), from as int, i + 1, width as int));
        i += 1;
    }
    let more = if end < count {
        cat3("\n[", number_text((count - end) as u64).as_str(), " more line(s)]")
    } else {
        "".to_owned()
    };
    let head = cat5(
        shown,
        " (lines ",
        number_text(offset).as_str(),
        "-",
        number_text(end as u64).as_str(),
    );
    let tail = cat5(
        " of ",
        number_text(count as u64).as_str(),
        ")\n",
        join(&body, "\n").as_str(),
        more.as_str(),
    );
    let r = cat2(head.as_str(), tail.as_str());
    proof {
        let all = lines(text@);
        let n = all.len();
        let e = page_end(n, offset as nat, limit as nat);
        assert(e == end);
        assert(r@ =~= shown@ + " (lines "@ + decimal(offset as nat) + "-"@ + decimal(e) + " of "@
            + decimal(n) + ")\n"@ + joined(
            numbered(all, offset - 1, e as int, decimal(e).len() as int),
            "\n"@,
        ) + more@);
    }
    truncate(r)
}

/// What `read_file` answers for the bytes of a file.
pub open spec fn read_answer(
    shown: Seq<char>,
    bytes: Seq<u8>,
    secret: Option<Seq<char>>,
    offset: nat,
    limit: nat,
) -> Result<Seq<char>, Seq<char>> {
    if bytes.contains(0u8) {
        Err("Binary files cannot be returned by read_file."@)
    } else if !valid_utf8(bytes) {
        Err("File is not valid UTF-8."@)
    } else {
        match secret {
            Some(kind) => Err(
                "File content was withheld because it resembles a "@ + kind + "."@,
            ),
            None => Ok(page(shown, decode_utf8(bytes), offset, limit)),
        }
    }
}

/// Whether a byte is zero.
fn has_zero(bytes: &Vec<u8>) -> (r: bool)
    ensures
        r == bytes@.contains(0u8),
{
    let mut i: usize = 0;
    while i < bytes.len()
        invariant
            i <= bytes@.len(),
            forall|k: int| 0 <= k < i ==> bytes@[k] != 0,
        decreases bytes.len() - i,
    {
        if bytes[i] == 0 {
            assert(bytes@[i as int] == 0u8);
            return true;
        }
        i += 1;
    }
    false
}

/// What `read_file` answers for the bytes of a file.
pub fn read_file(shown: &str, bytes: Vec<u8>, offset: u64, limit: u64) -> (r: Result<
    String,
    String,
>)
    requires
        1 <= offset,
        1 <= limit <= 1000,
    ensures
        outcome(r) == read_answer(
            shown@,
            bytes@,
            secret_in(decode_utf8(bytes@)),
            offset as nat,
            limit as nat,
        ),
{
    if has_zero(&bytes) {
        return Err("Binary files cannot be returned by read_file.".to_owned());
    }
    let text = match text_of_utf8(bytes.as_slice()) {
        Some(text) => text,
        None => return Err("File is not valid UTF-8.".to_owned()),
    };
    if let Some(kind) = detect_secret(text.as_str()) {
        return Err(cat3("File content was withheld because it resembles a ", kind, "."));
    }
    Ok(show_page(shown, text.as_str(), offset, limit))
}

// ---------------------------------------------------------------------------------------------
// list_dir and glob
// ---------------------------------------------------------------------------------------------

/// How `list_dir` is described to the model.
pub open spec fn list_dir_described() -> DefinitionView {
    DefinitionView {
        name: "list_dir"@,
        description: "List one directory inside the workspace. Directories end with / and symlinks with @."@,
        parameters: only(
            Map::empty().insert("path"@, text_with_default("."@)),
            Seq::empty(),
        ),
    }
}

/// How `list_dir` is described to the model.
pub fn list_dir_definition() -> (r: AgentToolDefinition)
    ensures
        r@ == list_dir_described(),
{
    let mut properties = ObjectBuilder::new();
    properties.put("path", text_with_default_schema("."));
    let none: Vec<String> = Vec::new();
    assert(texts(none@) =~= Seq::empty());
    define(
        "list_dir",
        "List one directory inside the workspace. Directories end with / and symlinks with @.",
        only_schema(properties, &none),
    )
}

/// The path of an argument, the workspace itself where it is not given.
pub fn path_or_root(args: &Json) -> (r: &str)
    ensures
        r@ == text_or(args@, "path"@, "."@),
{
    string_or(args, "path", ".")
}

/// What a directory entry is.
#[derive(Debug, Clone, Copy, PartialEq, Eq, Structural)]
pub enum EntryKind {
    Directory,
    Symlink,
    File,
}

/// An entry of a directory.
#[derive(Debug, PartialEq, Eq)]
pub struct DirEntry {
    pub path: String,
    pub name: String,
    pub kind: EntryKind,
    pub ignored: bool,
}

/// The name of an entry as it is listed.
pub open spec fn entry_label(entry: DirEntry) -> Seq<char> {
    entry.name@ + match entry.kind {
        EntryKind::Directory => "/"@,
        EntryKind::Symlink => "@"@,
        EntryKind::File => ""@,
    }
}

/// The labels of the entries that are listed; `parts` are the parts of their paths.
pub open spec fn labels(entries: Seq<DirEntry>, parts: Seq<Seq<PartView>>) -> Seq<Seq<char>>
    decreases entries.len(),
{
    if entries.len() == 0 {
        Seq::empty()
    } else if holds_secret(parts[entries.len() - 1]) || entries.last().ignored {
        labels(entries.drop_last(), parts)
    } else {
        labels(entries.drop_last(), parts).push(entry_label(entries.last()))
    }
}

/// A directory as the model is shown it.
pub open spec fn listing(
    shown: Seq<char>,
    entries: Seq<DirEntry>,
    parts: Seq<Seq<PartView>>,
) -> Seq<char> {
    cut(
        (if shown.len() == 0 {
            "."@
        } else {
            shown
        }) + "\n"@ + joined(sorted_texts(labels(entries, parts)), "\n"@),
    )
}

/// A directory as the model is shown it, given the parts of the paths of its entries.
pub fn list_entries(shown: &str, entries: &Vec<DirEntry>, parts: &Vec<Vec<PathPart>>) -> (r: String)
    requires
        parts@.len() == entries@.len(),
    ensures
        r@ == listing(shown@, entries@, parts.deep_view()),
{
    let ghost all = parts.deep_view();
    let mut names: Vec<String> = Vec::new();
    let mut i: usize = 0;
    while i < entries.len()
        invariant
            i <= entries@.len(),
            parts@.len() == entries@.len(),
            all == parts.deep_view(),
            texts(names@) == labels(entries@.take(i as int), all),
        decreases entries.len() - i,
    {
        let ghost head = entries@.take(i + 1);
        assert(head.drop_last() =~= entries@.take(i as int));
        assert(head.last() == entries@[i as int]);
        assert(all[i as int] == parts@[i as int].deep_view());
        let entry = &entries[i];
        if !parts_hold_a_secret(&parts[i]) && !entry.ignored {
            let suffix = match entry.kind {
                EntryKind::Directory => "/",
                EntryKind::Symlink => "@",
                EntryKind::File => "",
            };
            let ghost before = texts(names@);
            let label = cat2(entry.name.as_str(), suffix);
            names.push(label);
            assert(texts(names@) =~= before.push(label@));
        }
        i += 1;
    }
    assert(entries@.take(i as int) =~= entries@);
    let body = join(&sort_texts(&names), "\n");
    if chars_of(shown).len() == 0 {
        truncate(cat3(".", "\n", body.as_str()))
    } else {
        truncate(cat3(shown, "\n", body.as_str()))
    }
}

/// A directory as the model is shown it.
pub fn list_dir(shown: &str, entries: &Vec<DirEntry>) -> (r: String)
    ensures
        exists|parts: Seq<Seq<PartView>>|
            {
                &&& parts.len() == entries@.len()
                &&& forall|i: int|
                    0 <= i < parts.len() ==> taken_apart(entries@[i].path@, #[trigger] parts[i])
                &&& r@ == #[trigger] listing(shown@, entries@, parts)
            },
{
    let mut parts: Vec<Vec<PathPart>> = Vec::new();
    let mut i: usize = 0;
    while i < entries.len()
        invariant
            i <= entries@.len(),
            parts@.len() == i,
            forall|k: int|
                0 <= k < i ==> taken_apart(entries@[k].path@, (#[trigger] parts@[k]).deep_view()),
        decreases entries.len() - i,
    {
        parts.push(path_parts(entries[i].path.as_str()));
        i += 1;
    }
    let ghost all = parts.deep_view();
    assert forall|k: int| 0 <= k < all.len() implies taken_apart(
        entries@[k].path@,
        #[trigger] all[k],
    ) by {
        assert(all[k] == parts@[k].deep_view());
    }
    let r = list_entries(shown, entries, &parts);
    assert(r@ == listing(shown@, entries@, all));
    r
}

/// How `glob` is described to the model.
pub open spec fn glob_described() -> DefinitionView {
    DefinitionView {
        name: "glob"@,
        description: "Find workspace files whose relative paths match a glob pattern."@,
        parameters: only(Map::empty().insert("pattern"@, any_text()), seq!["pattern"@]),
    }
}

/// How `glob` is described to the model.
pub fn glob_definition() -> (r: AgentToolDefinition)
    ensures
        r@ == glob_described(),
{
    let mut properties = ObjectBuilder::new();
    properties.put("pattern", any_text_schema());
    define(
        "glob",
        "Find workspace files whose relative paths match a glob pattern.",
        only_schema(properties, &one_name("pattern")),
    )
}

/// The paths that hold no secrets; `parts` are the parts of the paths.
pub open spec fn without_secrets(paths: Seq<Seq<char>>, parts: Seq<Seq<PartView>>) -> Seq<Seq<char>>
    decreases paths.len(),
{
    if paths.len() == 0 {
        Seq::empty()
    } else if holds_secret(parts[paths.len() - 1]) {
        without_secrets(paths.drop_last(), parts)
    } else {
        without_secrets(paths.drop_last(), parts).push(paths.last())
    }
}

/// What `glob` answers for the files that match.
pub open spec fn glob_answer(paths: Seq<Seq<char>>, parts: Seq<Seq<PartView>>) -> Seq<char> {
    let kept = without_secrets(paths, parts);
    cut(
        if kept.len() == 0 {
            "No files matched."@
        } else {
            joined(sorted_texts(kept), "\n"@)
        },
    )
}

/// What `glob` answers for the files that match, given the parts of their paths.
pub fn list_matches(paths: &Vec<String>, parts: &Vec<Vec<PathPart>>) -> (r: String)
    requires
        parts@.len() == paths@.len(),
    ensures
        r@ == glob_answer(texts(paths@), parts.deep_view()),
{
    let ghost all = texts(paths@);
    let ghost each = parts.deep_view();
    let mut kept: Vec<String> = Vec::new();
    let mut i: usize = 0;
    while i < paths.len()
        invariant
            i <= paths@.len(),
            parts@.len() == paths@.len(),
            all == texts(paths@),
            each == parts.deep_view(),
            texts(kept@) == without_secrets(all.take(i as int), each),
        decreases paths.len() - i,
    {
        let ghost head = all.take(i + 1);
        assert(head.drop_last() =~= all.take(i as int));
        assert(head.last() == paths@[i as int]@);
        assert(each[i as int] == parts@[i as int].deep_view());
        if !parts_hold_a_secret(&parts[i]) {
            let ghost before = texts(kept@);
            kept.push(paths[i].clone());
            assert(texts(kept@) =~= before.push(paths@[i as int]@));
        }
        i += 1;
    }
    assert(all.take(i as int) =~= all);
    assert(texts(kept@).len() == kept@.len());
    if kept.len() == 0 {
        truncate("No files matched.".to_owned())
    } else {
        truncate(join(&sort_texts(&kept), "\n"))
    }
}

/// What `glob` answers for the files that match.
pub fn glob(paths: &Vec<String>) -> (r: String)
    ensures
        exists|parts: Seq<Seq<PartView>>|
            {
                &&& parts.len() == paths@.len()
                &&& forall|i: int|
                    0 <= i < parts.len() ==> taken_apart(paths@[i]@, #[trigger] parts[i])
                &&& r@ == #[trigger] glob_answer(texts(paths@), parts)
            },
{
    let mut parts: Vec<Vec<PathPart>> = Vec::new();
    let mut i: usize = 0;
    while i < paths.len()
        invariant
            i <= paths@.len(),
            parts@.len() == i,
            forall|k: int|
                0 <= k < i ==> taken_apart(paths@[k]@, (#[trigger] parts@[k]).deep_view()),
        decreases paths.len() - i,
    {
        parts.push(path_parts(paths[i].as_str()));
        i += 1;
    }
    let ghost all = parts.deep_view();
    assert forall|k: int| 0 <= k < all.len() implies taken_apart(paths@[k]@, #[trigger] all[k]) by {
        assert(all[k] == parts@[k].deep_view());
    }
    let r = list_matches(paths, &parts);
    assert(r@ == glob_answer(texts(paths@), all));
    r
}

// ---------------------------------------------------------------------------------------------
// grep
// ---------------------------------------------------------------------------------------------

/// The parameters of `grep`.
pub open spec fn grep_properties() -> Map<Seq<char>, JsonView> {
    Map::empty().insert("pattern"@, any_text()).insert("path"@, text_with_default("."@)).insert(
        "ignore_case"@,
        switch(),
    )
}

/// How `grep` is described to the model.
pub open spec fn grep_described() -> DefinitionView {
    DefinitionView {
        name: "grep"@,
        description: "Search UTF-8 workspace files with a regular expression."@,
        parameters: only(grep_properties(), seq!["pattern"@]),
    }
}

/// How `grep` is described to the model.
pub fn grep_definition() -> (r: AgentToolDefinition)
    ensures
        r@ == grep_described(),
{
    let mut properties = ObjectBuilder::new();
    properties.put("pattern", any_text_schema());
    properties.put("path", text_with_default_schema("."));
    properties.put("ignore_case", switch_schema());
    define(
        "grep",
        "Search UTF-8 workspace files with a regular expression.",
        only_schema(properties, &one_name("pattern")),
    )
}

/// The regular expression that the arguments of a call ask for.
pub open spec fn grep_source(args: JsonView) -> Result<Seq<char>, Seq<char>> {
    match text_arg(args, "pattern"@) {
        Err(e) => Err(e),
        Ok(pattern) => if bool_in(member(args, "ignore_case"@)) == Some(true) {
            Ok("(?i)"@ + pattern)
        } else {
            Ok(pattern)
        },
    }
}

/// The regular expression that the arguments of a call ask for.
pub fn grep_pattern(args: &Json) -> (r: Result<String, String>)
    ensures
        outcome(r) == grep_source(args@),
{
    let pattern = match string(args, "pattern") {
        Ok(pattern) => pattern,
        Err(e) => return Err(e),
    };
    if let Some(value) = args.get("ignore_case") {
        if let Some(flag) = value.as_bool() {
            if flag {
                return Ok(cat2("(?i)", pattern));
            }
        }
    }
    Ok(pattern.to_owned())
}

/// A line that matched, with its file and number.
pub open spec fn hit(shown: Seq<char>, number: nat, line: Seq<char>) -> Seq<char> {
    shown + ":"@ + decimal(number) + ":"@ + line
}

/// A line that matched, with its file and number.
pub fn show_hit(shown: &str, number: u64, line: &str) -> (r: String)
    ensures
        r@ == hit(shown@, number as nat, line@),
{
    cat5(shown, ":", number_text(number).as_str(), ":", line)
}

/// The lines of a file that match, up to the line `n`.
pub open spec fn hits(pattern: Seq<char>, shown: Seq<char>, all: Seq<Seq<char>>, n: int) -> Seq<
    Seq<char>,
>
    decreases n,
{
    if n <= 0 {
        Seq::empty()
    } else {
        let before = hits(pattern, shown, all, n - 1);
        if regex_matches(pattern, all[n - 1]) {
            before.push(hit(shown, n as nat, all[n - 1]))
        } else {
            before
        }
    }
}

/// The first 1000 of some hits.
pub open spec fn capped(found: Seq<Seq<char>>) -> Seq<Seq<char>> {
    if found.len() > 1000 {
        found.take(1000)
    } else {
        found
    }
}

/// A search of files for a regular expression.
pub struct GrepSearch {
    re: regex::Regex,
    out: Vec<String>,
}

impl GrepSearch {
    /// The pattern searched for.
    pub closed spec fn pattern(self) -> Seq<char> {
        regex_pattern(self.re)
    }

    /// What was found so far.
    pub closed spec fn found(self) -> Seq<Seq<char>> {
        texts(self.out@)
    }

    /// A search for a pattern.
    pub fn new(pattern: &str) -> (r: Result<GrepSearch, String>)
        ensures
            match r {
                Ok(search) => {
                    &&& regex_error(pattern@) is None
                    &&& search.pattern() == pattern@
                    &&& search.found() == Seq::<Seq<char>>::empty()
                },
                Err(e) => regex_error(pattern@) == Some(e@),
            },
    {
        match make_regex(pattern) {
            Ok(re) => {
                let search = GrepSearch { re, out: Vec::new() };
                assert(search.found() =~= Seq::<Seq<char>>::empty());
                Ok(search)
            },
            Err(e) => Err(e),
        }
    }

    /// Whether a file is searched: one with secrets is not.
    pub fn searches(&self, path: &str) -> (r: bool)
        ensures
            exists|parts: Seq<PartView>|
                taken_apart(path@, parts) && r == !#[trigger] holds_secret(parts),
    {
        !secret_path(path)
    }

    /// Searches a file.
    pub fn search(&mut self, shown: &str, text: &str)
        requires
            old(self).found().len() <= 1000,
        ensures
            final(self).pattern() == old(self).pattern(),
            final(self).found() == capped(
                old(self).found() + hits(
                    old(self).pattern(),
                    shown@,
                    lines(text@),
                    lines(text@).len() as int,
                ),
            ),
    {
        let all = split_lines(text);
        let ghost before = self.found();
        let ghost pattern = self.pattern();
        let ghost rows = lines(text@);
        let mut i: usize = 0;
        assert(before + hits(pattern, shown@, rows, 0) =~= before);
        while i < all.len() && self.out.len() < 1000
            invariant
                i <= all@.len(),
                rows == texts(all@),
                before.len() <= 1000,
                self.pattern() == pattern,
                self.found().len() <= 1000,
                self.found() == before + hits(pattern, shown@, rows, i as int),
            decreases all.len() - i,
        {
            assert(rows[i as int] == all@[i as int]@);
            if is_match(&self.re, all[i].as_str()) {
                let ghost now = self.found();
                let line = show_hit(shown, i as u64 + 1, all[i].as_str());
                self.out.push(line);
                assert(self.found() =~= now.push(line@));
                assert(self.found() =~= before + hits(pattern, shown@, rows, i + 1));
            }
            i += 1;
        }
        proof {
            hits_grow(pattern, shown@, rows, i as int, rows.len() as int);
            assert(self.found().len() == self.out@.len());
            let every = before + hits(pattern, shown@, rows, rows.len() as int);
            assert(self.found() =~= capped(every));
        }
    }

    /// Whether enough was found to stop.
    pub fn is_full(&self) -> (r: bool)
        ensures
            r == (self.found().len() >= 1000),
    {
        assert(self.found().len() == self.out@.len());
        self.out.len() >= 1000
    }

    /// What `grep` answers.
    pub fn answer(&self) -> (r: String)
        ensures
            r@ == cut(
                if self.found().len() == 0 {
                    "No matches found."@
                } else {
                    joined(self.found(), "\n"@)
                },
            ),
    {
        assert(self.found().len() == self.out@.len());
        if self.out.len() == 0 {
            truncate("No matches found.".to_owned())
        } else {
            truncate(join(&self.out, "\n"))
        }
    }
}

/// The hits up to a line are the first of the hits up to a later one.
pub proof fn hits_grow(pattern: Seq<char>, shown: Seq<char>, all: Seq<Seq<char>>, n: int, m: int)
    requires
        0 <= n <= m,
    ensures
        hits(pattern, shown, all, n).is_prefix_of(hits(pattern, shown, all, m)),
    decreases m,
{
    if n < m {
        hits_grow(pattern, shown, all, n, m - 1);
    }
}

// ---------------------------------------------------------------------------------------------
// write_file, edit_file and multi_edit
// ---------------------------------------------------------------------------------------------

/// The ways to change a file.
#[derive(Debug, Clone, Copy, PartialEq, Eq, Structural)]
pub enum MutationKind {
    Write,
    Edit,
    MultiEdit,
}

/// A tool that changes a file.
#[derive(Debug, Clone, Copy, PartialEq, Eq, Structural)]
pub struct Mutation {
    pub kind: MutationKind,
}

/// The name of a tool that changes a file.
pub open spec fn mutation_name(kind: MutationKind) -> Seq<char> {
    match kind {
        MutationKind::Write => "write_file"@,
        MutationKind::Edit => "edit_file"@,
        MutationKind::MultiEdit => "multi_edit"@,
    }
}

/// The parameters of a tool that changes a file.
pub open spec fn mutation_properties(kind: MutationKind) -> Map<Seq<char>, JsonView> {
    let base = Map::empty().insert("path"@, any_text());
    match kind {
        MutationKind::Write => base.insert("content"@, any_text()),
        MutationKind::Edit => base.insert("old_string"@, any_text()).insert(
            "new_string"@,
            any_text(),
        ),
        MutationKind::MultiEdit => base.insert("edits"@, JsonView::Object(typed("array"@))),
    }
}

/// How a tool that changes a file is described to the model.
pub open spec fn mutation_described(kind: MutationKind) -> DefinitionView {
    DefinitionView {
        name: mutation_name(kind),
        description: "Modify a text file inside the workspace."@,
        parameters: JsonView::Object(object_with(mutation_properties(kind))),
    }
}

/// A text with the one occurrence of another replaced; or why it cannot be replaced.
pub open spec fn replaced_once(input: Seq<char>, old: Seq<char>, new: Seq<char>) -> Result<
    Seq<char>,
    Seq<char>,
> {
    if old.len() == 0 {
        Err("old_string must not be empty."@)
    } else if occurrences(input, old, 0) != 1 {
        Err(
            "old_string must occur exactly once; found "@ + decimal(occurrences(input, old, 0))
                + "."@,
        )
    } else {
        Ok(first_replaced(input, old, new))
    }
}

/// Replaces the one occurrence of a text.
pub fn replace_once(input: &str, old: &str, new: &str) -> (r: Result<String, String>)
    ensures
        outcome(r) == replaced_once(input@, old@, new@),
{
    if chars_of(old).len() == 0 {
        return Err("old_string must not be empty.".to_owned());
    }
    let count = count_occurrences(input, old);
    if count != 1 {
        return Err(
            cat3(
                "old_string must occur exactly once; found ",
                number_text(count as u64).as_str(),
                ".",
            ),
        );
    }
    Ok(replace_first(input, old, new))
}

/// A text after one replacement that an argument asks for.
pub open spec fn edit_applied(value: Seq<char>, edit: JsonView) -> Result<Seq<char>, Seq<char>> {
    match text_arg(edit, "old_string"@) {
        Err(e) => Err(e),
        Ok(old) => match text_arg(edit, "new_string"@) {
            Err(e) => Err(e),
            Ok(new) => replaced_once(value, old, new),
        },
    }
}

/// A text after one of several replacements; where it fails, the error says which.
pub open spec fn numbered_edit(value: Seq<char>, edit: JsonView, number: nat) -> Result<
    Seq<char>,
    Seq<char>,
> {
    match text_arg(edit, "old_string"@) {
        Err(e) => Err(e),
        Ok(old) => match text_arg(edit, "new_string"@) {
            Err(e) => Err(e),
            Ok(new) => match replaced_once(value, old, new) {
                Err(e) => Err("Edit "@ + decimal(number) + ": "@ + e),
                Ok(v) => Ok(v),
            },
        },
    }
}

/// A text after the first `n` of several replacements, one after the other.
pub open spec fn edits_applied(value: Seq<char>, edits: Seq<JsonView>, n: int) -> Result<
    Seq<char>,
    Seq<char>,
>
    decreases n,
{
    if n <= 0 {
        Ok(value)
    } else {
        match edits_applied(value, edits, n - 1) {
            Err(e) => Err(e),
            Ok(v) => numbered_edit(v, edits[n - 1], n as nat),
        }
    }
}

/// What a file holds after a change; or why it cannot be changed so.
pub open spec fn mutated(kind: MutationKind, args: JsonView, before: Seq<char>) -> Result<
    Seq<char>,
    Seq<char>,
> {
    match kind {
        MutationKind::Write => text_arg(args, "content"@),
        MutationKind::Edit => edit_applied(before, args),
        MutationKind::MultiEdit => match member(args, "edits"@) {
            Some(JsonView::Array(edits)) => if 1 <= edits.len() <= 100 {
                edits_applied(before, edits, edits.len() as int)
            } else {
                Err("edits must contain between 1 and 100 replacements."@)
            },
            _ => Err("edits must contain between 1 and 100 replacements."@),
        },
    }
}

/// What `similar` writes as the unified diff of two texts, line by line, under the names given for
/// them.
pub uninterp spec fn unified_diff_text(
    before: Seq<char>,
    after: Seq<char>,
    old_name: Seq<char>,
    new_name: Seq<char>,
) -> Seq<char>;

/// `similar::TextDiff::from_lines` and its `unified_diff`, with a header: the unified diff of two
/// texts.
#[verifier::external_body]
fn unified_diff(before: &str, after: &str, old_name: &str, new_name: &str) -> (r: String)
    ensures
        r@ == unified_diff_text(before@, after@, old_name@, new_name@),
{
    similar::TextDiff::from_lines(before, after)
        .unified_diff()
        .header(old_name, new_name)
        .to_string()
}

/// A change that may be made: what the file will hold, and how that differs from what it holds.
#[derive(Debug, PartialEq, Eq)]
pub struct ChangePlan {
    pub after: String,
    pub diff: String,
}

/// The diff of a file.
pub open spec fn file_diff(shown: Seq<char>, before: Seq<char>, after: Seq<char>) -> Seq<char> {
    unified_diff_text(before, after, "a/"@ + shown, "b/"@ + shown)
}

/// The diff of a file.
pub fn diff_file(shown: &str, before: &str, after: &str) -> (r: String)
    ensures
        r@ == file_diff(shown@, before@, after@),
{
    unified_diff(before, after, cat2("a/", shown).as_str(), cat2("b/", shown).as_str())
}

/// The diffs of changes, one after the other; a file that was not there held nothing.
pub open spec fn changes_diff(changes: Seq<FileChange>) -> Seq<char>
    decreases changes.len(),
{
    if changes.len() == 0 {
        Seq::empty()
    } else {
        let last = changes.last();
        changes_diff(changes.drop_last()) + file_diff(
            last.path@,
            match last.before {
                Some(text) => text@,
                None => ""@,
            },
            last.after@,
        )
    }
}

/// The diffs of changes, one after the other.
pub fn diff_file_changes(changes: &Vec<FileChange>) -> (r: String)
    ensures
        r@ == changes_diff(changes@),
{
    let mut r = String::new();
    let mut i: usize = 0;
    assert(r@ =~= changes_diff(changes@.take(0)));
    while i < changes.len()
        invariant
            i <= changes@.len(),
            r@ == changes_diff(changes@.take(i as int)),
        decreases changes.len() - i,
    {
        assert(changes@.take(i + 1).drop_last() =~= changes@.take(i as int));
        let before = match &changes[i].before {
            Some(text) => text.as_str(),
            None => "",
        };
        let diff = diff_file(changes[i].path.as_str(), before, changes[i].after.as_str());
        r.append(diff.as_str());
        i += 1;
    }
    assert(changes@.take(i as int) =~= changes@);
    r
}

/// What a file will hold after a change; or why it is not made.
pub open spec fn change_planned(kind: MutationKind, args: JsonView, before: Seq<char>) -> Result<
    Seq<char>,
    Seq<char>,
> {
    match mutated(kind, args, before) {
        Ok(after) => guarded(after, secret_in(after)),
        Err(message) => Err(message),
    }
}

/// What a file will hold after a change, given the kind of secret in it; or why it is not made.
pub open spec fn guarded(after: Seq<char>, secret: Option<Seq<char>>) -> Result<
    Seq<char>,
    Seq<char>,
> {
    match secret {
        Some(kind) => Err("Refusing to write content containing a detected "@ + kind + "."@),
        None => Ok(after),
    }
}

impl Mutation {
    /// A tool that changes a file in a way.
    pub fn new(kind: MutationKind) -> (r: Self)
        ensures
            r.kind == kind,
    {
        Mutation { kind }
    }

    /// The name of the tool.
    pub fn name(&self) -> (r: &'static str)
        ensures
            r@ == mutation_name(self.kind),
    {
        match self.kind {
            MutationKind::Write => "write_file",
            MutationKind::Edit => "edit_file",
            MutationKind::MultiEdit => "multi_edit",
        }
    }

    /// How the tool is described to the model.
    pub fn definition(&self) -> (r: AgentToolDefinition)
        ensures
            r@ == mutation_described(self.kind),
    {
        let mut properties = ObjectBuilder::new();
        properties.put("path", any_text_schema());
        match self.kind {
            MutationKind::Write => properties.put("content", any_text_schema()),
            MutationKind::Edit => {
                properties.put("old_string", any_text_schema());
                properties.put("new_string", any_text_schema());
            },
            MutationKind::MultiEdit => properties.put("edits", begin_schema("array").finish()),
        }
        define(
            self.name(),
            "Modify a text file inside the workspace.",
            open_schema(properties),
        )
    }

    fn apply_edits(before: &str, edits: &Vec<Json>) -> (r: Result<String, String>)
        ensures
            outcome(r) == edits_applied(before@, json_views(edits@), edits@.len() as int),
    {
        let ghost all = json_views(edits@);
        let mut value = before.to_owned();
        let mut i: usize = 0;
        while i < edits.len()
            invariant
                i <= edits@.len(),
                all == json_views(edits@),
                edits_applied(before@, all, i as int) == Ok::<Seq<char>, Seq<char>>(value@),
            decreases edits.len() - i,
        {
            assert(all[i as int] == edits@[i as int]@);
            let ghost next = edits_applied(before@, all, i + 1);
            assert(next == numbered_edit(value@, all[i as int], (i + 1) as nat));
            let old = match string(&edits[i], "old_string") {
                Ok(old) => old,
                Err(e) => {
                    proof {
                        failed_edits_stay_failed(before@, all, i + 1, all.len() as int);
                    }
                    return Err(e);
                },
            };
            let new = match string(&edits[i], "new_string") {
                Ok(new) => new,
                Err(e) => {
                    proof {
                        failed_edits_stay_failed(before@, all, i + 1, all.len() as int);
                    }
                    return Err(e);
                },
            };
            match replace_once(value.as_str(), old, new) {
                Ok(v) => {
                    value = v;
                },
                Err(e) => {
                    proof {
                        failed_edits_stay_failed(before@, all, i + 1, all.len() as int);
                    }
                    return Err(
                        cat4("Edit ", number_text(i as u64 + 1).as_str(), ": ", e.as_str()),
                    );
                },
            }
            i += 1;
        }
        Ok(value)
    }

    /// What a file holds after a change.
    pub fn apply(&self, args: &Json, before: &str) -> (r: Result<String, String>)
        ensures
            outcome(r) == mutated(self.kind, args@, before@),
    {
        match self.kind {
            MutationKind::Write => match string(args, "content") {
                Ok(content) => Ok(content.to_owned()),
                Err(e) => Err(e),
            },
            MutationKind::Edit => {
                let old = match string(args, "old_string") {
                    Ok(old) => old,
                    Err(e) => return Err(e),
                };
                let new = match string(args, "new_string") {
                    Ok(new) => new,
                    Err(e) => return Err(e),
                };
                replace_once(before, old, new)
            },
            MutationKind::MultiEdit => {
                if let Some(value) = args.get("edits") {
                    if let Some(edits) = value.as_array() {
                        if edits.len() >= 1 && edits.len() <= 100 {
                            return Self::apply_edits(before, edits);
                        }
                    }
                }
                Err("edits must contain between 1 and 100 replacements.".to_owned())
            },
        }
    }

    /// Plans a change of a file: what it will hold, and how that differs from what it holds. A
    /// change that would write a secret is refused.
    pub fn plan(&self, args: &Json, shown: &str, before: &str) -> (r: Result<ChangePlan, String>)
        ensures
            match r {
                Ok(plan) => {
                    &&& change_planned(self.kind, args@, before@) == Ok::<Seq<char>, Seq<char>>(
                        plan.after@,
                    )
                    &&& secret_in(plan.after@) is None
                    &&& plan.diff@ == file_diff(shown@, before@, plan.after@)
                },
                Err(e) => change_planned(self.kind, args@, before@) == Err::<Seq<char>, Seq<char>>(
                    e@,
                ),
            },
    {
        let after = match self.apply(args, before) {
            Ok(after) => after,
            Err(e) => return Err(e),
        };
        if let Some(kind) = detect_secret(after.as_str()) {
            return Err(cat3("Refusing to write content containing a detected ", kind, "."));
        }
        let diff = diff_file(shown, before, after.as_str());
        Ok(ChangePlan { after, diff })
    }

    /// How a planned change is shown to the user.
    pub fn describe(&self, shown: &str, plan: ChangePlan) -> (r: ToolPermissionDescription)
        ensures
            r.summary@ == mutation_name(self.kind) + " will modify "@ + shown@,
            r.preview == Some(plan.diff),
            r.persistence_key@ == mutation_name(self.kind),
            r.warning is None,
    {
        ToolPermissionDescription {
            summary: cat3(self.name(), " will modify ", shown),
            preview: Some(plan.diff),
            persistence_key: self.name().to_owned(),
            warning: None,
        }
    }

    /// What the tool answers once a change is made. `before` is nothing for a file that did not
    /// exist.
    pub fn report(&self, shown: &str, before: Option<String>, after: String) -> (r: ToolResult)
        ensures
            r.result@ == mutation_name(self.kind) + " updated "@ + shown@ + "."@,
            !r.is_error,
            r.metadata.exit_code is None,
            !r.metadata.truncated,
            texts(r.metadata.affected_paths@) == seq![shown@],
            r.metadata.stdout is None,
            r.metadata.stderr is None,
            r.metadata.file_changes@.len() == 1,
            r.metadata.file_changes@[0].path@ == shown@,
            r.metadata.file_changes@[0].before == before,
            r.metadata.file_changes@[0].after == after,
    {
        let mut affected_paths: Vec<String> = Vec::new();
        affected_paths.push(shown.to_owned());
        let mut file_changes: Vec<FileChange> = Vec::new();
        file_changes.push(FileChange { path: shown.to_owned(), before, after });
        assert(texts(affected_paths@) =~= seq![shown@]);
        ToolResult {
            result: cat4(self.name(), " updated ", shown, "."),
            is_error: false,
            metadata: ToolResultMetadata {
                exit_code: None,
                truncated: false,
                affected_paths,
                stdout: None,
                stderr: None,
                file_changes,
            },
        }
    }
}

proof fn failed_edits_stay_failed(value: Seq<char>, edits: Seq<JsonView>, n: int, m: int)
    requires
        0 <= n <= m,
        edits_applied(value, edits, n) is Err,
    ensures
        edits_applied(value, edits, m) == edits_applied(value, edits, n),
    decreases m,
{
    if n < m {
        failed_edits_stay_failed(value, edits, n, m - 1);
    }
}

/// What is to be done to a file to take back a change.
#[derive(Debug, PartialEq, Eq)]
pub enum Undo {
    /// The file was changed since.
    Conflict,
    /// The file did not exist before.
    Remove,
    /// The file held this before.
    Restore(String),
}

/// What takes back a change of a file that now holds `current`, which is nothing for a file that
/// does not exist.
pub fn plan_undo(change: &FileChange, current: &Option<String>) -> (r: Undo)
    ensures
        match r {
            Undo::Conflict => current.deep_view() != Some(change.after@),
            Undo::Remove => current.deep_view() == Some(change.after@) && change.before is None,
            Undo::Restore(text) => current.deep_view() == Some(change.after@)
                && change.before.deep_view() == Some(text@),
        },
{
    match current {
        None => Undo::Conflict,
        Some(text) => if !same(text.as_str(), change.after.as_str()) {
            Undo::Conflict
        } else {
            match &change.before {
                None => Undo::Remove,
                Some(before) => Undo::Restore(before.clone()),
            }
        },
    }
}

/// The place of the first change whose file was changed since, from a place on; the number of
/// changes where there is none.
pub open spec fn conflict_index(
    changes: Seq<FileChange>,
    current: Seq<Option<String>>,
    from: int,
) -> int
    decreases changes.len() - from,
{
    if from < 0 || from >= changes.len() {
        changes.len() as int
    } else if current[from].deep_view() != Some(changes[from].after@) {
        from
    } else {
        conflict_index(changes, current, from + 1)
    }
}

/// Whether what is to be done to a file takes back its change.
pub open spec fn takes_back(undo: Undo, change: FileChange) -> bool {
    match undo {
        Undo::Conflict => false,
        Undo::Remove => change.before is None,
        Undo::Restore(text) => change.before.deep_view() == Some(text@),
    }
}

/// What takes back all of some changes, where `current` is what their files hold now; or the place
/// of the first change whose file was changed since, and then none is taken back.
pub fn plan_undo_all(changes: &Vec<FileChange>, current: &Vec<Option<String>>) -> (r: Result<
    Vec<Undo>,
    usize,
>)
    requires
        current@.len() == changes@.len(),
    ensures
        match r {
            Ok(undos) => {
                &&& conflict_index(changes@, current@, 0) == changes@.len()
                &&& undos@.len() == changes@.len()
                &&& forall|i: int|
                    0 <= i < undos@.len() ==> takes_back(#[trigger] undos@[i], changes@[i])
            },
            Err(at) => at < changes@.len() && conflict_index(changes@, current@, 0) == at,
        },
{
    let mut r: Vec<Undo> = Vec::new();
    let mut i: usize = 0;
    while i < changes.len()
        invariant
            i <= changes@.len(),
            current@.len() == changes@.len(),
            r@.len() == i,
            conflict_index(changes@, current@, 0) == conflict_index(changes@, current@, i as int),
            forall|k: int| 0 <= k < i ==> takes_back(#[trigger] r@[k], changes@[k]),
        decreases changes.len() - i,
    {
        let undo = plan_undo(&changes[i], &current[i]);
        if let Undo::Conflict = undo {
            return Err(i);
        }
        r.push(undo);
        i += 1;
    }
    Ok(r)
}

/// Changes are taken back all or none: exactly where every file still holds what its change left.
pub proof fn undo_is_all_or_nothing(changes: Seq<FileChange>, current: Seq<Option<String>>, from: int)
    requires
        0 <= from <= changes.len(),
        current.len() == changes.len(),
    ensures
        conflict_index(changes, current, from) == changes.len() <==> forall|i: int|
            from <= i < changes.len() ==> (#[trigger] current[i]).deep_view() == Some(
                changes[i].after@,
            ),
    decreases changes.len() - from,
{
    if from < changes.len() {
        undo_is_all_or_nothing(changes, current, from + 1);
        if current[from].deep_view() == Some(changes[from].after@) {
            assert forall|i: int|
                conflict_index(changes, current, from) == changes.len() && from <= i
                    < changes.len() implies (#[trigger] current[i]).deep_view() == Some(
                changes[i].after@,
            ) by {
            }
        } else {
            assert(conflict_index(changes, current, from) == from);
        }
    }
}

// ---------------------------------------------------------------------------------------------
// bash
// ---------------------------------------------------------------------------------------------

/// What the user is told of the shell.
pub open spec fn shell_warning() -> Seq<char> {
    "Warning: the shell is shallowly contained. Commands start inside the workspace but can access paths outside it."@
}

/// What the user is told of the shell.
pub fn shell_warning_text() -> (r: &'static str)
    ensures
        r@ == shell_warning(),
{
    "Warning: the shell is shallowly contained. Commands start inside the workspace but can access paths outside it."
}

/// The parameters of `bash`.
pub open spec fn bash_properties() -> Map<Seq<char>, JsonView> {
    Map::empty().insert("command"@, any_text()).insert("cwd"@, any_text()).insert(
        "timeout_seconds"@,
        positive(Some(120), 30),
    )
}

/// How `bash` is described to the model.
pub open spec fn bash_described() -> DefinitionView {
    DefinitionView {
        name: "bash"@,
        description: "Run a shell command. "@ + shell_warning(),
        parameters: only(bash_properties(), seq!["command"@]),
    }
}

/// How `bash` is described to the model.
pub fn bash_definition() -> (r: AgentToolDefinition)
    ensures
        r@ == bash_described(),
{
    let mut properties = ObjectBuilder::new();
    properties.put("command", any_text_schema());
    properties.put("cwd", any_text_schema());
    properties.put("timeout_seconds", positive_schema(Some(120), 30));
    define(
        "bash",
        cat2("Run a shell command. ", shell_warning_text()).as_str(),
        only_schema(properties, &one_name("command")),
    )
}

/// A command with its words one space apart.
pub open spec fn normalized(command: Seq<char>) -> Seq<char> {
    joined(words(command), " "@)
}

/// A command with its words one space apart.
pub fn normalize_command(command: &str) -> (r: String)
    ensures
        r@ == normalized(command@),
{
    join(&split_words(command), " ")
}

/// How a command is shown to the user before it runs.
pub fn describe_command(args: &Json) -> (r: Result<ToolPermissionDescription, String>)
    ensures
        match r {
            Ok(d) => {
                let command = text_arg(args@, "command"@)->Ok_0;
                &&& text_arg(args@, "command"@) is Ok
                &&& d.summary@ == "Run in "@ + text_or(args@, "cwd"@, "."@) + ": "@ + command
                &&& d.preview.deep_view() == Some("$ "@ + command)
                &&& d.persistence_key@ == normalized(command)
                &&& d.warning.deep_view() == Some(shell_warning())
            },
            Err(e) => text_arg(args@, "command"@) == Err::<Seq<char>, Seq<char>>(e@),
        },
{
    let command = match string(args, "command") {
        Ok(command) => command,
        Err(e) => return Err(e),
    };
    let cwd = string_or(args, "cwd", ".");
    Ok(
        ToolPermissionDescription {
            summary: cat4("Run in ", cwd, ": ", command),
            preview: Some(cat2("$ ", command)),
            persistence_key: normalize_command(command),
            warning: Some(shell_warning_text().to_owned()),
        },
    )
}

/// A command to run: the directory it starts in and the seconds it may take.
#[derive(Debug, PartialEq, Eq)]
pub struct CommandRequest {
    pub command: String,
    pub cwd: String,
    pub timeout_seconds: u64,
}

/// The command that the arguments of a call ask for, given the kind of secret in it.
pub open spec fn command_request(args: JsonView, secret: Option<Seq<char>>) -> Result<
    (Seq<char>, Seq<char>, nat),
    Seq<char>,
> {
    match text_arg(args, "command"@) {
        Err(e) => Err(e),
        Ok(command) => match secret {
            Some(kind) => Err("Refusing to run a command containing a detected "@ + kind + "."@),
            None => match number_arg(args, "timeout_seconds"@, 30, 1, 120) {
                Err(e) => Err(e),
                Ok(timeout) => Ok((command, text_or(args, "cwd"@, "."@), timeout)),
            },
        },
    }
}

/// The command that the arguments of a call ask for.
pub fn parse_command_request(args: &Json) -> (r: Result<CommandRequest, String>)
    ensures
        ({
            let secret = match text_arg(args@, "command"@) {
                Ok(command) => secret_in(command),
                Err(_) => None,
            };
            match r {
                Ok(q) => command_request(args@, secret) == Ok::<
                    (Seq<char>, Seq<char>, nat),
                    Seq<char>,
                >((q.command@, q.cwd@, q.timeout_seconds as nat)),
                Err(e) => command_request(args@, secret) == Err::<
                    (Seq<char>, Seq<char>, nat),
                    Seq<char>,
                >(e@),
            }
        }),
{
    let command = match string(args, "command") {
        Ok(command) => command,
        Err(e) => return Err(e),
    };
    if let Some(kind) = detect_secret(command) {
        return Err(cat3("Refusing to run a command containing a detected ", kind, "."));
    }
    match integer(args, "timeout_seconds", 30, 1, 120) {
        Ok(timeout_seconds) => Ok(
            CommandRequest {
                command: command.to_owned(),
                cwd: string_or(args, "cwd", ".").to_owned(),
                timeout_seconds,
            },
        ),
        Err(e) => Err(e),
    }
}

/// The first mebibyte of some output.
pub open spec fn output_head(bytes: Seq<u8>) -> Seq<u8> {
    if bytes.len() > 1048576 {
        bytes.take(1048576)
    } else {
        bytes
    }
}

/// The exit code of a command as it is shown.
pub open spec fn code_text(code: Option<i32>) -> Seq<char> {
    match code {
        Some(n) => signed_decimal(n as int),
        None => "unknown"@,
    }
}

/// The output of a command as it is shown.
pub open spec fn output_text(out: Seq<char>) -> Seq<char> {
    if out.len() == 0 {
        "(empty)"@
    } else {
        out
    }
}

/// What the model is shown of a command that ran.
pub open spec fn command_text(code: Option<i32>, out: Seq<char>, err: Seq<char>) -> Seq<char> {
    cut(
        "Command exit code "@ + code_text(code) + "\n\nstdout:\n"@ + output_text(out)
            + "\n\nstderr:\n"@ + output_text(err),
    )
}

/// What the model is told of a command whose output holds a secret.
pub open spec fn withheld_text(kind: Seq<char>, code: Option<i32>) -> Seq<char> {
    "Command output withheld because it contained a detected "@ + kind + ". Exit code: "@ + (
    match code {
        Some(n) => "Some("@ + signed_decimal(n as int) + ")"@,
        None => "None"@,
    }) + "."@
}

/// Whether a result is what `bash` answers for the exit code and output of a command that ran, given
/// the kind of secret in its output.
pub open spec fn answers_for(
    r: ToolResult,
    code: Option<i32>,
    success: bool,
    truncated: bool,
    out: Seq<char>,
    err: Seq<char>,
    secret: Option<Seq<char>>,
) -> bool {
    match secret {
        Some(kind) => {
            &&& r.result@ == withheld_text(kind, code)
            &&& r.is_error
            &&& r.metadata.is_default()
        },
        None => {
            &&& r.result@ == command_text(code, out, err)
            &&& r.is_error == !success
            &&& r.metadata.exit_code == code
            &&& r.metadata.truncated == truncated
            &&& r.metadata.affected_paths@.len() == 0
            &&& r.metadata.stdout.deep_view() == Some(taken(out, 24000))
            &&& r.metadata.stderr.deep_view() == Some(taken(err, 24000))
            &&& r.metadata.file_changes@.len() == 0
        },
    }
}

/// What `bash` answers for the exit code and output of a command that ran, given the kind of secret
/// in its output.
pub fn command_answer(
    code: Option<i32>,
    success: bool,
    truncated: bool,
    out: &str,
    err: &str,
    secret: Option<&str>,
) -> (r: ToolResult)
    ensures
        answers_for(r, code, success, truncated, out@, err@, secret.deep_view()),
{
    if let Some(kind) = secret {
        let shown = match code {
            Some(n) => cat3("Some(", signed_text(n as i64).as_str(), ")"),
            None => "None".to_owned(),
        };
        return ToolResult::error(
            cat5(
                "Command output withheld because it contained a detected ",
                kind,
                ". Exit code: ",
                shown.as_str(),
                ".",
            ),
        );
    }
    let shown = match code {
        Some(n) => signed_text(n as i64),
        None => "unknown".to_owned(),
    };
    let shown_out = if chars_of(out).len() == 0 {
        "(empty)"
    } else {
        out
    };
    let shown_err = if chars_of(err).len() == 0 {
        "(empty)"
    } else {
        err
    };
    let head = cat4("Command exit code ", shown.as_str(), "\n\nstdout:\n", shown_out);
    ToolResult {
        result: truncate(cat3(head.as_str(), "\n\nstderr:\n", shown_err)),
        is_error: !success,
        metadata: ToolResultMetadata {
            exit_code: code,
            truncated,
            affected_paths: Vec::new(),
            stdout: Some(take_chars(out, 24000)),
            stderr: Some(take_chars(err, 24000)),
            file_changes: Vec::new(),
        },
    }
}

fn head_text(bytes: &Vec<u8>) -> (r: String)
    ensures
        r@ == lossy_utf8(output_head(bytes@)),
{
    if bytes.len() > 1048576 {
        lossy_text(vstd::slice::slice_subrange(bytes.as_slice(), 0, 1048576))
    } else {
        lossy_text(bytes.as_slice())
    }
}

/// What `bash` answers for a command that ran: its exit code, whether it succeeded, and the bytes
/// that it wrote.
pub fn command_result(code: Option<i32>, success: bool, out: &Vec<u8>, err: &Vec<u8>) -> (r:
    ToolResult)
    ensures
        ({
            let shown_out = lossy_utf8(output_head(out@));
            let shown_err = lossy_utf8(output_head(err@));
            answers_for(
                r,
                code,
                success,
                out@.len() > 1048576 || err@.len() > 1048576,
                shown_out,
                shown_err,
                secret_in(shown_out + "\n"@ + shown_err),
            )
        }),
{
    let truncated = out.len() > 1048576 || err.len() > 1048576;
    let shown_out = head_text(out);
    let shown_err = head_text(err);
    let both = cat3(shown_out.as_str(), "\n", shown_err.as_str());
    command_answer(
        code,
        success,
        truncated,
        shown_out.as_str(),
        shown_err.as_str(),
        detect_secret(both.as_str()),
    )
}

// ---------------------------------------------------------------------------------------------
// Laws
// ---------------------------------------------------------------------------------------------

/// Putting the words of a command one space apart twice is the same as doing it once, so that a rule
/// that is kept covers the command it was kept for.
pub proof fn normalizing_twice_is_normalizing_once(command: Seq<char>)
    ensures
        normalized(normalized(command)) == normalized(command),
        words(normalized(command)) == words(command),
{
    words_are_words(command);
    joined_words_are_found(words(command));
}

/// A result is never longer than the limit and the note that it was cut, and what is shown of a
/// long one is its beginning.
pub proof fn results_are_bounded(value: Seq<char>)
    ensures
        cut(value).len() <= 30000 + "\n[result truncated]"@.len(),
        value.len() <= 30000 ==> cut(value) == value,
        value.len() > 30000 ==> cut(value).take(30000) == value.take(30000),
{
    if value.len() > 30000 {
        assert(cut(value).take(30000) =~= value.take(30000));
    }
}

/// A replacement changes the one occurrence of the old text and nothing else: what stands before
/// and after it stays.
pub proof fn replacement_keeps_the_rest(input: Seq<char>, old: Seq<char>, new: Seq<char>)
    requires
        replaced_once(input, old, new) is Ok,
    ensures
        exists|i: int|
            {
                &&& 0 <= i <= input.len() - old.len()
                &&& #[trigger] input.subrange(i, i + old.len()) == old
                &&& replaced_once(input, old, new)->Ok_0 == input.take(i) + new + input.skip(
                    i + old.len(),
                )
            },
{
    crate::text::found_from_is_first(input, old, 0);
    match crate::text::found_from(input, old, 0) {
        Some(i) => {
            assert(crate::text::occurs_at(input, old, i));
            assert(input.subrange(i, i + old.len()) == old);
        },
        None => {},
    }
}

/// Whether a piece of a path is not the name of something that holds secrets.
pub open spec fn unprotected(piece: Seq<char>) -> bool {
    names(piece) && piece != ".."@ ==> !secret_name(ascii_lower(piece))
}

/// Whether a piece of a path neither goes up nor is the name of something that holds secrets.
pub open spec fn harmless(piece: Seq<char>) -> bool {
    piece != ".."@ && unprotected(piece)
}

proof fn found_pieces_are_unprotected(piece: Seq<char>, parts: Seq<PartView>)
    requires
        piece_found(piece, parts),
        !holds_secret(parts),
    ensures
        unprotected(piece),
{
    if names(piece) && piece != ".."@ {
        let i = choose|i: int| 0 <= i < parts.len() && parts[i] == PartView::Name(piece);
        assert(part_text(parts[i]) == piece);
    }
}

proof fn found_pieces_are_harmless(piece: Seq<char>, parts: Seq<PartView>)
    requires
        piece_found(piece, parts),
        !holds_secret(parts),
        !goes_up(parts),
    ensures
        harmless(piece),
{
    reveal_strlit("..");
    reveal_strlit(".");
    found_pieces_are_unprotected(piece, parts);
    if piece == ".."@ {
        assert(".."@.len() == 2 && "."@.len() == 1);
        assert(names(piece));
        assert(name_part(piece) == PartView::Parent);
        assert(parts.contains(PartView::Parent));
        let i = choose|i: int| 0 <= i < parts.len() && parts[i] == PartView::Parent;
        assert(parts[i] is Parent);
    }
}

/// A path may be written only where the platform finds it below the root, it does not go up and its
/// parts hold no secrets. So no piece of it between the separators of the platform is `..` or the
/// name of something that holds secrets; on every platform this holds of the plain pieces between
/// slashes unless the path begins with two separators. Paths without prefixes then lie in the
/// workspace.
pub proof fn writes_stay_in_the_workspace(
    root: Seq<char>,
    value: Seq<char>,
    parts: Seq<PartView>,
    path: Seq<char>,
    rest: Option<Seq<char>>,
    probes: Seq<Result<bool, String>>,
    ignored: bool,
)
    requires
        taken_apart(value, parts),
        left_below(path, root, rest),
        targeted(value, parts, path, rest) matches Ok((p, shown)) && writable(
            p,
            shown,
            probes,
            ignored,
        ) is Ok,
    ensures
        rest is Some,
        portable(path) && portable(root) ==> lies_under(path, root),
        forall|windows: bool| #[trigger]
            below_on(windows, path, root, rest) && bare_on(windows, path) && bare_on(windows, root)
                ==> lies_under(slashed(windows, path), slashed(windows, root)),
        !goes_up(parts),
        !holds_secret(parts),
        !two_separators(value) ==> forall|i: int|
            0 <= i < split_on(value, '/').len() && plain(#[trigger] split_on(value, '/')[i])
                ==> harmless(split_on(value, '/')[i]),
        forall|windows: bool, i: int|
            parts_on(windows, value, parts) && 0 <= i < pieces_on(windows, value).len() && is_sure(
                windows,
                value,
                #[trigger] pieces_on(windows, value)[i],
            ) ==> harmless(pieces_on(windows, value)[i]),
        !ignored,
        forall|i: int| 0 <= i < probes.len() ==> #[trigger] probes[i] == Ok::<bool, String>(false),
{
    no_links(probes);
    if portable(path) && portable(root) {
        portable_paths_are_compared_alike(path, root, rest);
    }
    if !two_separators(value) {
        assert forall|i: int|
            0 <= i < split_on(value, '/').len() && plain(
                #[trigger] split_on(value, '/')[i],
            ) implies harmless(split_on(value, '/')[i]) by {
            plain_pieces_are_found(value, parts, i);
            found_pieces_are_harmless(split_on(value, '/')[i], parts);
        }
    }
    assert forall|windows: bool, i: int|
        parts_on(windows, value, parts) && 0 <= i < pieces_on(windows, value).len() && is_sure(
            windows,
            value,
            #[trigger] pieces_on(windows, value)[i],
        ) implies harmless(pieces_on(windows, value)[i]) by {
        pieces_are_found(windows, value, parts, i);
        found_pieces_are_harmless(pieces_on(windows, value)[i], parts);
    }
}

proof fn no_links(probes: Seq<Result<bool, String>>)
    requires
        link_problem(probes) is None,
    ensures
        forall|i: int| 0 <= i < probes.len() ==> #[trigger] probes[i] == Ok::<bool, String>(false),
    decreases probes.len(),
{
    if probes.len() > 0 {
        no_links(probes.skip(1));
        assert forall|i: int| 0 <= i < probes.len() implies #[trigger] probes[i] == Ok::<
            bool,
            String,
        >(false) by {
            if i > 0 {
                assert(probes[i] == probes.skip(1)[i - 1]);
            }
        }
    }
}

/// A path may be read only where the platform finds what it leads to below the root and its parts
/// hold no secrets. So no piece of it between the separators of the platform is the name of
/// something that holds secrets; on every platform this holds of the plain pieces between slashes
/// unless the path begins with two separators. Paths without prefixes then lie in the workspace.
pub proof fn reads_stay_in_the_workspace(
    root: Seq<char>,
    value: Seq<char>,
    parts: Seq<PartView>,
    rest: Option<Seq<char>>,
    directory: bool,
    found: Found,
)
    requires
        taken_apart(value, parts),
        found.canonical matches Ok(actual) ==> left_below(actual@, root, rest),
        readable(parts, rest, directory, found) is Ok,
    ensures
        rest is Some,
        !holds_secret(parts),
        !two_separators(value) ==> forall|i: int|
            0 <= i < split_on(value, '/').len() && plain(#[trigger] split_on(value, '/')[i])
                ==> unprotected(split_on(value, '/')[i]),
        forall|windows: bool, i: int|
            parts_on(windows, value, parts) && 0 <= i < pieces_on(windows, value).len() && is_sure(
                windows,
                value,
                #[trigger] pieces_on(windows, value)[i],
            ) ==> unprotected(pieces_on(windows, value)[i]),
        !found.ignored,
        ({
            let (path, _) = readable(parts, rest, directory, found)->Ok_0;
            &&& portable(path) && portable(root) ==> lies_under(path, root)
            &&& forall|windows: bool| #[trigger]
                below_on(windows, path, root, rest) && bare_on(windows, path) && bare_on(
                    windows,
                    root,
                ) ==> lies_under(slashed(windows, path), slashed(windows, root))
        }),
{
    let (path, _) = readable(parts, rest, directory, found)->Ok_0;
    if portable(path) && portable(root) {
        portable_paths_are_compared_alike(path, root, rest);
    }
    if !two_separators(value) {
        assert forall|i: int|
            0 <= i < split_on(value, '/').len() && plain(
                #[trigger] split_on(value, '/')[i],
            ) implies unprotected(split_on(value, '/')[i]) by {
            plain_pieces_are_found(value, parts, i);
            found_pieces_are_unprotected(split_on(value, '/')[i], parts);
        }
    }
    assert forall|windows: bool, i: int|
        parts_on(windows, value, parts) && 0 <= i < pieces_on(windows, value).len() && is_sure(
            windows,
            value,
            #[trigger] pieces_on(windows, value)[i],
        ) implies unprotected(pieces_on(windows, value)[i]) by {
        pieces_are_found(windows, value, parts, i);
        found_pieces_are_unprotected(pieces_on(windows, value)[i], parts);
    }
}

/// Whether a platform finds left of a path below a root what stands behind the root and a separator.
pub open spec fn leaves_tail(
    path: Seq<char>,
    root: Seq<char>,
    tail: Seq<char>,
    rest: Option<Seq<char>>,
) -> bool {
    exists|windows: bool| #[trigger]
        below_on(windows, path, root, rest) && has_tail(windows, path, root, tail)
}

proof fn portable_tails_are_left(
    root: Seq<char>,
    tail: Seq<char>,
    rest: Option<Seq<char>>,
)
    requires
        portable(root),
        root.len() > 0,
        root.last() != '/',
        portable(tail),
        tidy(tail),
        left_below(root + "/"@ + tail, root, rest),
    ensures
        leaves_tail(root + "/"@ + tail, root, tail, rest),
        char_replaced(tail, '\\', '/') == tail,
{
    let path = root + "/"@ + tail;
    let windows = choose|windows: bool| #[trigger] below_on(windows, path, root, rest);
    portable_paths_are_cut_alike(windows, tail);
    portable_paths_are_cut_alike(true, tail);
    assert(has_tail(windows, path, root, tail));
}

/// A file that stands in the workspace can be read, and is shown by its path from the root with `/`
/// between the names, where nothing of it is secret and it is not ignored.
pub proof fn files_in_the_workspace_can_be_read(
    root: Seq<char>,
    tail: Seq<char>,
    parts: Seq<PartView>,
    rest: Option<Seq<char>>,
    directory: bool,
    found: Found,
)
    requires
        found.canonical matches Ok(actual) && leaves_tail(actual@, root, tail, rest),
        found.is_dir == Ok::<bool, String>(directory),
        !found.ignored,
        !holds_secret(parts),
    ensures
        readable(parts, rest, directory, found) == Ok::<(Seq<char>, Seq<char>), Seq<char>>(
            (found.canonical->Ok_0@, char_replaced(tail, '\\', '/')),
        ),
{
}

/// Where the paths are portable, a file that stands in the workspace can be read on every platform,
/// and is shown by its path from the root.
pub proof fn portable_files_can_be_read(
    root: Seq<char>,
    tail: Seq<char>,
    parts: Seq<PartView>,
    rest: Option<Seq<char>>,
    directory: bool,
    found: Found,
)
    requires
        portable(root),
        root.len() > 0,
        root.last() != '/',
        portable(tail),
        tidy(tail),
        found.canonical matches Ok(actual) && actual@ == root + "/"@ + tail && left_below(
            actual@,
            root,
            rest,
        ),
        found.is_dir == Ok::<bool, String>(directory),
        !found.ignored,
        !holds_secret(parts),
    ensures
        readable(parts, rest, directory, found) == Ok::<(Seq<char>, Seq<char>), Seq<char>>(
            (root + "/"@ + tail, tail),
        ),
{
    portable_tails_are_left(root, tail, rest);
    files_in_the_workspace_can_be_read(root, tail, parts, rest, directory, found);
}

/// A path that is written from the root can be written, and is shown as it was written with `/`
/// between the names, where it does not go up and nothing of it is secret.
pub proof fn paths_from_the_root_can_be_written(
    root: Seq<char>,
    value: Seq<char>,
    parts: Seq<PartView>,
    path: Seq<char>,
    rest: Option<Seq<char>>,
)
    requires
        !blank(value),
        leaves_tail(path, root, value, rest),
        !holds_secret(parts),
        !goes_up(parts),
    ensures
        targeted(value, parts, path, rest) == Ok::<(Seq<char>, Seq<char>), Seq<char>>(
            (path, char_replaced(value, '\\', '/')),
        ),
{
}

/// Where the paths are portable, a path that is written from the root can be written on every
/// platform, and is shown as it was written.
pub proof fn portable_paths_can_be_written(
    root: Seq<char>,
    value: Seq<char>,
    parts: Seq<PartView>,
    rest: Option<Seq<char>>,
)
    requires
        portable(root),
        root.len() > 0,
        root.last() != '/',
        portable(value),
        tidy(value),
        !blank(value),
        left_below(root + "/"@ + value, root, rest),
        !holds_secret(parts),
        !goes_up(parts),
    ensures
        targeted(value, parts, root + "/"@ + value, rest) == Ok::<
            (Seq<char>, Seq<char>),
            Seq<char>,
        >((root + "/"@ + value, value)),
{
    portable_tails_are_left(root, value, rest);
    paths_from_the_root_can_be_written(root, value, parts, root + "/"@ + value, rest);
}

} // verus!
