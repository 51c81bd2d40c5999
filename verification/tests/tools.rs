//! The tools of a workspace.
use ronin::digest::{digest_text, hex};
use ronin::interaction::ask_user_definition;
use ronin::json::{parse_json, Json};
use ronin::paths::{
    file_name, is_secret_name, last_of, parts_go_up, parts_hold_a_secret, path_parts, relative,
    secret_path, show_part, show_path, slash_names, PathPart,
};
use ronin::patterns::detect_secret;
use ronin::tool::{
    define, error_text, parse_tool_args, structured_error, tool_args_of, FileChange, ToolResult,
};
use ronin::tools::{
    bash_definition, check_file_size, check_target, command_answer, command_result,
    describe_command, diff_file, diff_file_changes, glob, glob_definition, grep_definition,
    grep_pattern, integer, list_dir, list_dir_definition, list_entries, list_matches,
    normalize_command, parse_command_request, parse_read_request, path_or_root, plan_undo,
    plan_undo_all, read_file, read_file_definition, replace_once, resolve_found, result,
    shell_warning_text, show_page, string, string_or, truncate, DirEntry, EntryKind, Found,
    GrepSearch, Mutation, MutationKind, Undo, WorkspacePolicy,
};
use std::path::Path;

fn args(text: &str) -> Json {
    parse_json(text).unwrap()
}

fn policy() -> WorkspacePolicy {
    WorkspacePolicy::new("/work".to_string())
}

/// A path below the root, as the platform writes it.
fn below_work(path: &str) -> String {
    Path::new("/work").join(path).to_str().unwrap().to_string()
}

fn found(canonical: &str, is_dir: bool) -> Found {
    Found { canonical: Ok(canonical.to_string()), is_dir: Ok(is_dir), ignored: false }
}

#[test]
fn read_and_edit_tools_keep_workspace_contracts() {
    let policy = policy();
    let before = "one\ntwo\n";
    let request = parse_read_request(&args("{\"path\":\"a.txt\",\"offset\":2}")).unwrap();
    let (path, shown) =
        policy.resolve_existing(&request.path, false, found("/work/a.txt", false)).unwrap();
    assert_eq!(path, "/work/a.txt");
    assert_eq!(shown, "a.txt");
    let page = read_file(&shown, before.as_bytes().to_vec(), request.offset, request.limit);
    let answer = result(page);
    assert!(!answer.is_error);
    assert!(answer.result.contains("2: two"));
    assert!(!answer.result.contains("1: one"));

    let edit = Mutation::new(MutationKind::Edit);
    let change = args("{\"path\":\"a.txt\",\"old_string\":\"two\",\"new_string\":\"three\"}");
    let plan = edit.plan(&change, "a.txt", before).unwrap();
    let report = edit.report("a.txt", Some(before.to_string()), plan.after.clone());
    assert!(!report.is_error);
    assert_eq!(plan.after, "one\nthree\n");
    assert!(plan.diff.contains("-two\n+three\n"));
    assert_eq!(report.metadata.affected_paths, vec!["a.txt"]);
    assert_eq!(
        report.metadata.file_changes,
        vec![FileChange {
            path: "a.txt".to_string(),
            before: Some(before.to_string()),
            after: "one\nthree\n".to_string(),
        }]
    );
}

#[test]
fn rejects_secret_and_parent_paths() {
    let policy = policy();
    let request = parse_read_request(&args("{\"path\":\".env\"}")).unwrap();
    let read = policy.resolve_existing(&request.path, false, found("/work/.env", false));
    assert!(read.is_err());
    assert_eq!(
        policy.write_target("../escape"),
        Err("Path traversal is not allowed.".to_string())
    );
}

#[test]
fn write_file_can_create_a_new_nonignored_file() {
    let policy = policy();
    let write = Mutation::new(MutationKind::Write);
    let target = policy.write_target("new.txt").unwrap();
    let probes = target.steps.iter().map(|_| Ok(false)).collect();
    let (path, shown) = policy.resolve_write(target, probes, false).unwrap();
    assert_eq!(path, below_work("new.txt"));
    let after =
        write.apply(&args("{\"path\":\"new.txt\",\"content\":\"hello\"}"), "").unwrap();
    let created = write.report(&shown, None, after.clone());
    assert!(!created.is_error, "{}", created.result);
    assert_eq!(after, "hello");

    let target = policy.write_target("ignored.txt").unwrap();
    let probes = target.steps.iter().map(|_| Ok(false)).collect();
    assert_eq!(
        policy.resolve_write(target, probes, true),
        Err("Path is ignored by .gitignore or .roninignore.".to_string())
    );
}

#[test]
fn reads_stay_in_the_workspace() {
    let policy = policy();
    assert_eq!(policy.root(), "/work");
    assert_eq!(policy.candidate("src/a.rs"), below_work("src/a.rs"));
    assert!(policy.resolve_existing("a", false, found("/elsewhere/a", false)).is_err());
    assert!(policy.resolve_existing("link", false, found("/work2/a", false)).is_err());
    assert!(policy.resolve_existing("src", false, found("/work/src", true)).is_err());
    assert!(policy.resolve_existing("a", true, found("/work/a", false)).is_err());
    assert!(policy.resolve_existing("src", true, found("/work/src", true)).is_ok());
    let ignored = Found {
        canonical: Ok("/work/target/a".to_string()),
        is_dir: Ok(false),
        ignored: true,
    };
    assert!(policy.resolve_existing("target/a", false, ignored).is_err());
    let missing = Found { canonical: Err("gone".to_string()), is_dir: Ok(false), ignored: false };
    assert!(policy.resolve_existing("a", false, missing).is_err());
}

#[test]
fn writes_do_not_follow_links() {
    let policy = policy();
    let target = || policy.write_target("a/b.txt").unwrap();
    assert_eq!(target().steps.len(), 2);
    assert_eq!(target().steps[0], below_work("a"));
    assert_eq!(target().shown, "a/b.txt");
    let denied = || Err("denied".to_string());
    assert!(policy.resolve_write(target(), vec![Ok(false), Ok(false)], false).is_ok());
    assert_eq!(
        policy.resolve_write(target(), vec![Ok(true), Ok(false)], false),
        Err("Traversal through symlinks is not allowed for writes.".to_string())
    );
    assert!(policy.resolve_write(target(), vec![Ok(false), Ok(true)], false).is_err());
    assert_eq!(
        policy.resolve_write(target(), vec![Ok(false), denied()], false),
        Err("denied".to_string())
    );
    let secret = "Secret, protected, or empty paths cannot be written.".to_string();
    assert_eq!(policy.write_target(".ssh/id_rsa"), Err(secret.clone()));
    assert_eq!(policy.write_target(" "), Err(secret));
    assert_eq!(
        policy.write_target("/elsewhere/a"),
        Err("Path escapes the workspace.".to_string())
    );
}

fn name(text: &str) -> PathPart {
    PathPart::Name(text.to_string())
}

fn drive() -> PathPart {
    PathPart::Prefix("C:".to_string())
}

#[test]
fn files_on_a_drive_are_read_and_written() {
    let parts = vec![name("a.txt")];
    let here = || Found {
        canonical: Ok("C:\\work\\src\\a.txt".to_string()),
        is_dir: Ok(false),
        ignored: false,
    };
    let rest = Some("src\\a.txt".to_string());
    assert_eq!(
        resolve_found(&parts, &rest, false, here()),
        Ok(("C:\\work\\src\\a.txt".to_string(), "src/a.txt".to_string()))
    );
    assert_eq!(
        resolve_found(&parts, &None, false, here()),
        Err("Path escapes the workspace.".to_string())
    );
    let secret = vec![name("a"), name(".ENV")];
    assert!(parts_hold_a_secret(&secret));
    assert!(resolve_found(&secret, &rest, false, here()).is_err());
    assert_eq!(
        check_target("b.txt", &vec![name("b.txt")], "C:\\work\\b.txt".to_string(), &Some("b.txt".to_string())),
        Ok(("C:\\work\\b.txt".to_string(), "b.txt".to_string()))
    );
    assert_eq!(
        check_target("..\\b", &vec![PathPart::Parent, name("b")], "C:\\b".to_string(), &None),
        Err("Path traversal is not allowed.".to_string())
    );
    assert_eq!(last_of(&vec![drive(), PathPart::Root, name("w"), name("p")]).as_deref(), Some("p"));
    assert_eq!(last_of(&vec![drive(), PathPart::Root]), None);
    assert!(parts_go_up(&vec![drive(), PathPart::Parent]));
    assert_eq!(show_path("C:\\x", &None), "C:/x");
    let entry = DirEntry {
        path: "C:\\work\\.env".to_string(),
        name: ".env".to_string(),
        kind: EntryKind::File,
        ignored: false,
    };
    let way = vec![drive(), PathPart::Root, name("work"), name(".env")];
    assert_eq!(list_entries("", &vec![entry], &vec![way.clone()]), ".\n");
    assert_eq!(list_matches(&vec!["a\\.env".to_string()], &vec![way]), "No files matched.");
}

#[test]
fn arguments_are_read() {
    let given = args("{\"path\":\"a\",\"empty\":\"\",\"n\":7,\"bad\":\"x\"}");
    assert_eq!(string(&given, "path"), Ok("a"));
    assert_eq!(
        string(&given, "empty"),
        Err("empty must be a non-empty string.".to_string())
    );
    assert!(string(&given, "n").is_err());
    assert_eq!(string_or(&given, "path", "."), "a");
    assert_eq!(string_or(&given, "none", "."), ".");
    assert_eq!(integer(&given, "n", 1, 1, 10), Ok(7));
    assert_eq!(integer(&given, "none", 1, 1, 10), Ok(1));
    assert!(integer(&given, "n", 1, 1, 6).is_err());
    assert_eq!(integer(&given, "bad", 3, 1, 10), Ok(3));
    assert_eq!(
        integer(&given, "n", 1, 1, 6),
        Err("n must be from 1 to 6.".to_string())
    );
    assert_eq!(path_or_root(&given), "a");
    assert_eq!(path_or_root(&args("{}")), ".");
    assert_eq!(parse_tool_args("{\"a\":1}"), Ok(args("{\"a\":1}")));
    assert_eq!(
        parse_tool_args("no json"),
        Err("Tool arguments were not valid JSON: no json".to_string())
    );
    assert_eq!(
        tool_args_of(&"x".repeat(300), None),
        Err(format!("Tool arguments were not valid JSON: {}", "x".repeat(200)))
    );
    assert_eq!(parse_tool_args(" \n"), Ok(args("{}")));
}

#[test]
fn results_are_cut() {
    assert_eq!(truncate("short".to_string()), "short");
    let long = truncate("é".repeat(30001));
    assert!(long.ends_with("\n[result truncated]"));
    assert!(long.starts_with(&"é".repeat(30000)));
    assert_eq!(long.chars().count(), 30000 + 19);
    let failed = result(Err("no".to_string()));
    assert!(failed.is_error);
    assert!(failed.result.contains("no"));
    assert_eq!(ToolResult::ok("v".to_string()).result, "v");
    assert!(structured_error("code", "message").is_error);
    assert_eq!(
        parse_json(&error_text("code", "me\"ssage")),
        parse_json("{\"error\":{\"code\":\"code\",\"message\":\"me\\\"ssage\"}}")
    );
}

#[test]
fn pages_are_numbered() {
    let text = "a\nb\nc\nd";
    assert_eq!(check_file_size(10).is_ok(), true);
    assert!(show_page("f", text, 2, 2).contains("2: b\n"));
    let page = show_page("f", text, 2, 2);
    assert!(page.contains("3: c"));
    assert!(!page.contains("4: d"));
    assert!(read_file("f", vec![0xff, 0xfe], 1, 10).is_err());
    assert!(check_file_size(u64::MAX).is_err());
}

#[test]
fn directories_are_listed_in_order() {
    let entry = |name: &str, kind, ignored| DirEntry {
        path: format!("/work/{name}"),
        name: name.to_string(),
        kind,
        ignored,
    };
    let listing = list_dir(
        ".",
        &vec![
            entry("b.txt", EntryKind::File, false),
            entry("a", EntryKind::Directory, false),
            entry("target", EntryKind::Directory, true),
            entry(".env", EntryKind::File, false),
            entry("link", EntryKind::Symlink, false),
        ],
    );
    let at = |name: &str| listing.find(name);
    assert!(at("a").unwrap() < at("b.txt").unwrap());
    assert!(at("target").is_none());
    assert!(at(".env").is_none());
    assert!(at("link").is_some());
}

#[test]
fn globs_are_sorted() {
    let found = glob(&vec!["b.rs".to_string(), "a.rs".to_string()]);
    assert!(found.find("a.rs").unwrap() < found.find("b.rs").unwrap());
}

#[test]
fn searches_show_lines() {
    let pattern = grep_pattern(&args("{\"pattern\":\"f[on]+\"}")).unwrap();
    assert!(grep_pattern(&args("{}")).is_err());
    let mut search = GrepSearch::new(&pattern).unwrap();
    assert!(search.searches("src/a.rs"));
    assert!(!search.searches(".env"));
    search.search("src/a.rs", "fn main\nlet x\nfoo");
    assert!(!search.is_full());
    assert_eq!(search.answer(), "src/a.rs:1:fn main\nsrc/a.rs:3:foo");
    assert!(GrepSearch::new("(").is_err());
}

#[test]
fn searches_stop_when_they_are_full() {
    let mut search = GrepSearch::new("x").unwrap();
    let many = "x\n".repeat(5000);
    search.search("a", &many);
    assert!(search.is_full());
    let before = search.answer();
    search.search("b", "x");
    assert_eq!(search.answer(), before);
}

#[test]
fn replacement_needs_one_occurrence() {
    assert_eq!(replace_once("a b c", "b", "x"), Ok("a x c".to_string()));
    assert!(replace_once("a b b", "b", "x").is_err());
    assert!(replace_once("a", "b", "x").is_err());
    assert!(replace_once("a", "", "x").is_err());
}

#[test]
fn several_edits_apply_in_order() {
    let multi = Mutation::new(MutationKind::MultiEdit);
    let change = args(
        "{\"edits\":[{\"old_string\":\"a\",\"new_string\":\"b\"},{\"old_string\":\"b\",\"new_string\":\"c\"}]}",
    );
    assert_eq!(multi.apply(&change, "a"), Ok("c".to_string()));
    assert!(multi.apply(&args("{\"edits\":[]}"), "a").is_err());
    assert_eq!(multi.name(), "multi_edit");
    assert_eq!(Mutation::new(MutationKind::Edit).name(), "edit_file");
    assert_eq!(Mutation::new(MutationKind::Write).name(), "write_file");
    let described = multi.describe("f", multi.plan(&change, "f", "a").unwrap());
    assert!(described.preview.is_some());
}

#[test]
fn differences_are_shown() {
    let diff = diff_file("f.txt", "one\ntwo\n", "one\nthree\n");
    assert!(diff.contains("f.txt"));
    assert!(diff.contains("-two\n+three\n"));
    assert!(diff.contains("@@"));
    let change = |path: &str, before: Option<&str>| FileChange {
        path: path.to_string(),
        before: before.map(str::to_string),
        after: "x\n".to_string(),
    };
    assert_eq!(
        diff_file_changes(&vec![change("a", Some("y\n")), change("b", None)]),
        format!("{}{}", diff_file("a", "y\n", "x\n"), diff_file("b", "", "x\n"))
    );
    assert_eq!(diff_file_changes(&vec![]), "");
}

#[test]
fn changes_are_undone_unless_the_file_changed() {
    let change = |before: Option<&str>| FileChange {
        path: "a".to_string(),
        before: before.map(str::to_string),
        after: "new".to_string(),
    };
    let now = Some("new".to_string());
    assert_eq!(plan_undo(&change(Some("old")), &now), Undo::Restore("old".to_string()));
    assert_eq!(plan_undo(&change(None), &now), Undo::Remove);
    assert_eq!(plan_undo(&change(None), &Some("other".to_string())), Undo::Conflict);
    assert_eq!(plan_undo(&change(None), &None), Undo::Conflict);
    let both = vec![change(Some("old")), change(None)];
    assert_eq!(
        plan_undo_all(&both, &vec![now.clone(), now.clone()]),
        Ok(vec![Undo::Restore("old".to_string()), Undo::Remove])
    );
    assert_eq!(plan_undo_all(&both, &vec![now.clone(), None]), Err(1));
    assert_eq!(plan_undo_all(&both, &vec![None, None]), Err(0));
    assert_eq!(plan_undo_all(&vec![], &vec![]), Ok(vec![]));
}

#[test]
fn commands_are_normalized_once() {
    let once = normalize_command("  git \t status\n-s ");
    assert_eq!(once, "git status -s");
    assert_eq!(normalize_command(&once), once);
    let described = describe_command(&args("{\"command\":\"ls   -l\"}")).unwrap();
    assert_eq!(described.persistence_key, "ls -l");
    assert!(described.warning.is_some());
    assert!(describe_command(&args("{}")).is_err());
    let request = parse_command_request(&args("{\"command\":\"ls\"}")).unwrap();
    assert_eq!(request.timeout_seconds, 30);
    assert_eq!(request.cwd, ".");
    assert!(parse_command_request(&args("{\"command\":\"ls\",\"timeout_seconds\":121}")).is_err());
    assert!(!shell_warning_text().is_empty());
}

#[test]
fn outputs_of_commands_are_reported() {
    let ok = command_result(Some(0), true, &b"out".to_vec(), &b"".to_vec());
    assert!(!ok.is_error);
    assert_eq!(ok.metadata.exit_code, Some(0));
    assert_eq!(ok.metadata.stdout.as_deref(), Some("out"));
    let failed = command_result(Some(2), false, &b"".to_vec(), &b"\xff".to_vec());
    assert!(failed.is_error);
    assert_eq!(failed.metadata.stderr.as_deref(), Some("\u{fffd}"));
    let key = format!("token ghp_{}", "a".repeat(36));
    let secret = command_result(Some(0), true, &key.as_bytes().to_vec(), &b"".to_vec());
    assert!(secret.is_error);
    assert!(!secret.result.contains("ghp_"));
    let told = command_answer(None, false, false, "o", "e", None);
    assert!(told.is_error);
}

#[test]
fn secrets_are_found() {
    assert_eq!(detect_secret("nothing here"), None);
    assert!(detect_secret(&format!("ghp_{}", "a".repeat(36))).is_some());
    assert!(secret_path("a/.env"));
    assert!(secret_path("a/b.pem"));
    assert!(!secret_path("src/main.rs"));
    assert!(is_secret_name(".env.local"));
}

#[test]
fn paths_are_taken_apart() {
    assert_eq!(
        path_parts("/a//b/./../c/"),
        vec![PathPart::Root, name("a"), name("b"), PathPart::Parent, name("c")]
    );
    assert_eq!(path_parts("./a"), vec![PathPart::Current, name("a")]);
    assert_eq!(path_parts(""), vec![]);
    assert_eq!(relative("/a", "/a/b/c"), "b/c");
    assert_eq!(relative("/a", "/ab"), "/ab");
    assert_eq!(file_name("/a/b"), Some("b".to_string()));
    assert_eq!(file_name("/"), None);
    assert_eq!(slash_names("/a//b/./c"), vec!["a", "b", "c"]);
}

const SEPARATORS: [char; 2] = ['/', '\\'];

fn on_windows() -> bool {
    std::path::MAIN_SEPARATOR == '\\'
}

/// A path with `/` wherever this platform separates.
fn slashed(path: &str) -> String {
    if on_windows() {
        path.replace('\\', "/")
    } else {
        path.to_string()
    }
}

fn begins_with_two_separators(path: &str) -> bool {
    path.chars().count() > 1 && path.chars().take(2).all(|c| SEPARATORS.contains(&c))
}

/// Whether a path surely has no prefix on this platform.
fn is_bare(path: &str) -> bool {
    !on_windows() || (!path.contains(':') && !begins_with_two_separators(path))
}

/// The parts that a path without a prefix has.
fn bare_parts(path: &str) -> Vec<PathPart> {
    let path = slashed(path);
    let mut parts = vec![];
    if path.starts_with('/') {
        parts.push(PathPart::Root);
    } else if path == "." || path.starts_with("./") {
        parts.push(PathPart::Current);
    }
    for piece in path.split('/') {
        match piece {
            "" | "." => {}
            ".." => parts.push(PathPart::Parent),
            other => parts.push(name(other)),
        }
    }
    parts
}

#[test]
fn paths_are_those_of_the_standard() {
    let all = [
        "", "/", "a", "/a", "a/", "/a/", "a//b", "/a/./b", "./a", ".", "..", "a/..", "/a/../b",
        "a/.", "//a", "/work", "/work/a", "/workx", "/work//a/./b", "/work/..", "é/ü", "a/b.key",
        ".env", "x/.ENV.local", "Credentials", "c.PEM/d", "id_rsa", ".envx", "C:\\work", "a\\.env",
        "./.", ".//a", "/./a", "a/./", "../..", "a:b/.env", "x\\..", "/work/a\\b:c", "//work/a",
        "/work/C:d/id_rsa", ":", "\\a",
    ];
    for text in all {
        let path = Path::new(text);
        let parts = path_parts(text);
        if is_bare(text) {
            assert_eq!(parts, bare_parts(text), "{text}");
        }
        if !begins_with_two_separators(text) {
            for piece in slashed(text).split('/').filter(|piece| !piece.contains(':')) {
                match piece {
                    "" | "." => {}
                    ".." => assert!(parts.contains(&PathPart::Parent), "{text}"),
                    name => assert!(parts.contains(&PathPart::Name(name.to_string())), "{text}"),
                }
            }
        }
        let shown: Vec<String> =
            path.components().map(|c| c.as_os_str().to_str().unwrap().to_string()).collect();
        assert_eq!(parts.len(), shown.len(), "{text}");
        for (part, expected) in parts.iter().zip(&shown) {
            if *part != PathPart::Root {
                assert_eq!(show_part(part), expected, "{text}");
            }
        }
        let last = path.file_name().and_then(|name| name.to_str()).map(str::to_string);
        assert_eq!(file_name(text), last, "{text}");
        let secret = shown.iter().any(|s| {
            let s = s.to_ascii_lowercase();
            s == ".env"
                || s.starts_with(".env.")
                || s.ends_with(".pem")
                || s.ends_with(".key")
                || s == "id_rsa"
                || s == "id_ed25519"
                || s == "credentials"
        });
        assert_eq!(secret_path(text), secret, "{text}");
        for root in ["/", "/work", "/a", "/a/b", "a", "."] {
            let policy = WorkspacePolicy::new(root.to_string());
            let joined = policy.candidate(text);
            assert_eq!(joined, Path::new(root).join(text).to_str().unwrap());
            if !slashed(text).starts_with('/') && (!on_windows() || !text.contains(':')) {
                let sep = if root.ends_with('/') { "" } else { std::path::MAIN_SEPARATOR_STR };
                assert_eq!(joined, format!("{root}{sep}{text}"), "{text} from {root}");
            }
            let slashes = slashed(text);
            let last = slashes.split('/').next_back().unwrap();
            if is_bare(text) && !["", ".", ".."].contains(&last) {
                assert!(joined.ends_with(last), "{text} from {root}");
                let before = joined[..joined.len() - last.len()].chars().next_back();
                assert!(before.is_none_or(|c| SEPARATORS.contains(&c)), "{text} from {root}");
            }
            let shown = path.strip_prefix(root).unwrap_or(path).to_str().unwrap();
            assert_eq!(relative(root, text), shown.replace('\\', "/"), "{text} from {root}");
            if is_bare(text) {
                let (way, base) = (bare_parts(text), bare_parts(root));
                assert_eq!(path.starts_with(root), way.starts_with(&base), "{text} under {root}");
            }
            if let Some(tail) = text.strip_prefix(&format!("{root}/")) {
                let tidy = slashed(tail).split('/').all(|piece| !["", "."].contains(&piece));
                if tidy && root != "/" && (!on_windows() || !tail.contains(':')) {
                    assert_eq!(relative(root, text), tail.replace('\\', "/"));
                }
            }
        }
    }
}

#[test]
fn digests_are_written_in_hexadecimal() {
    assert_eq!(hex(&[0, 255, 16]), "00ff10");
    assert_eq!(
        digest_text("abc"),
        "ba7816bf8f01cfea414140de5dae2223b00361a396177a9cb410ff61f20015ad"
    );
}

/// A value with the entries of its objects in order.
fn in_order(value: Json) -> Json {
    match value {
        Json::Array(items) => Json::Array(items.into_iter().map(in_order).collect()),
        Json::Object(entries) => {
            let mut entries: Vec<(String, Json)> =
                entries.into_iter().map(|(key, value)| (key, in_order(value))).collect();
            entries.sort_by(|a, b| a.0.cmp(&b.0));
            Json::Object(entries)
        }
        other => other,
    }
}

#[test]
fn tools_have_definitions() {
    let mutation = |kind| Mutation::new(kind).definition();
    for (definition, name, schema) in [
        (
            read_file_definition(),
            "read_file",
            "{\"type\":\"object\",\"properties\":{\"path\":{\"type\":\"string\"},\"offset\":{\"type\":\"integer\",\"minimum\":1,\"default\":1},\"limit\":{\"type\":\"integer\",\"minimum\":1,\"maximum\":1000,\"default\":200}},\"required\":[\"path\"],\"additionalProperties\":false}",
        ),
        (
            list_dir_definition(),
            "list_dir",
            "{\"type\":\"object\",\"properties\":{\"path\":{\"type\":\"string\",\"default\":\".\"}},\"additionalProperties\":false}",
        ),
        (
            glob_definition(),
            "glob",
            "{\"type\":\"object\",\"properties\":{\"pattern\":{\"type\":\"string\"}},\"required\":[\"pattern\"],\"additionalProperties\":false}",
        ),
        (
            grep_definition(),
            "grep",
            "{\"type\":\"object\",\"properties\":{\"pattern\":{\"type\":\"string\"},\"path\":{\"type\":\"string\",\"default\":\".\"},\"ignore_case\":{\"type\":\"boolean\",\"default\":false}},\"required\":[\"pattern\"],\"additionalProperties\":false}",
        ),
        (
            mutation(MutationKind::Write),
            "write_file",
            "{\"type\":\"object\",\"properties\":{\"path\":{\"type\":\"string\"},\"content\":{\"type\":\"string\"}}}",
        ),
        (
            mutation(MutationKind::Edit),
            "edit_file",
            "{\"type\":\"object\",\"properties\":{\"path\":{\"type\":\"string\"},\"old_string\":{\"type\":\"string\"},\"new_string\":{\"type\":\"string\"}}}",
        ),
        (
            mutation(MutationKind::MultiEdit),
            "multi_edit",
            "{\"type\":\"object\",\"properties\":{\"path\":{\"type\":\"string\"},\"edits\":{\"type\":\"array\"}}}",
        ),
        (
            bash_definition(),
            "bash",
            "{\"type\":\"object\",\"properties\":{\"command\":{\"type\":\"string\"},\"cwd\":{\"type\":\"string\"},\"timeout_seconds\":{\"type\":\"integer\",\"minimum\":1,\"maximum\":120,\"default\":30}},\"required\":[\"command\"],\"additionalProperties\":false}",
        ),
        (
            ask_user_definition(),
            "ask_user",
            "{\"type\":\"object\",\"properties\":{\"questions\":{\"type\":\"array\",\"minItems\":1,\"maxItems\":3,\"items\":{\"type\":\"object\",\"properties\":{\"id\":{\"type\":\"string\",\"minLength\":1,\"maxLength\":64},\"header\":{\"type\":\"string\",\"minLength\":1,\"maxLength\":40},\"question\":{\"type\":\"string\",\"minLength\":1,\"maxLength\":500},\"kind\":{\"type\":\"string\",\"enum\":[\"single_select\",\"multi_select\",\"free_text\"]},\"options\":{\"type\":\"array\",\"minItems\":0,\"maxItems\":4,\"items\":{\"type\":\"object\",\"properties\":{\"id\":{\"type\":\"string\",\"minLength\":1,\"maxLength\":64},\"label\":{\"type\":\"string\",\"minLength\":1,\"maxLength\":80},\"description\":{\"type\":\"string\",\"maxLength\":240}},\"required\":[\"id\",\"label\"],\"additionalProperties\":false}},\"multiSelect\":{\"type\":\"boolean\",\"default\":false},\"allowOther\":{\"type\":\"boolean\",\"default\":false}},\"required\":[\"id\",\"header\",\"question\",\"options\"],\"additionalProperties\":false}}},\"required\":[\"questions\"],\"additionalProperties\":false}",
        ),
        (define("x", "d", args("{\"type\":\"object\"}")), "x", "{\"type\":\"object\"}"),
    ] {
        assert_eq!(definition.name, name);
        assert_eq!(in_order(definition.parameters), in_order(args(schema)), "{name}");
    }
}
