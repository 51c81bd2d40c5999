//! Credentials, sessions and leases.
use ronin::json::read_json;
use ronin::paths::secret_path;
use ronin::storage::{
    access_token_expiry, acquire_lease, belongs_in_vault, check_version, credentials_path,
    default_permission_mode, finish_load, is_session_file, is_valid_id, keychain_account, latest,
    lease_status, list_sessions, moves_to_vault, open_session, payload_expiry, ronin_dir,
    scan_loaded, session_version, state_name, Credentials, FileRead, LocalSession, LockAttempt,
    ScanStep, SessionActivity, SessionError, SessionLeaseOwner, SessionLeaseStatus,
    SessionScanEntry, SessionState, SessionStore, Timestamp,
};
use ronin::types::AgentMessage;
use std::collections::BTreeMap;
use std::path::PathBuf;

const NOW: Timestamp = Timestamp { seconds: 1_700_000_000, nanos: 0 };

/// A place below the home directory, as the platform writes it.
fn home(way: &[&str]) -> String {
    let mut path = PathBuf::from("/home/me");
    for name in way {
        path.push(name);
    }
    path.to_str().unwrap().to_string()
}

fn at(seconds: i64) -> Timestamp {
    Timestamp { seconds, nanos: 0 }
}

fn store() -> SessionStore {
    SessionStore::new("/home/me".to_string())
}

fn session(id: &str, cwd: &str, now: Timestamp) -> LocalSession {
    LocalSession::create(
        id.to_string(),
        format!("provider-{id}"),
        cwd,
        "openai/test",
        vec![AgentMessage::user("hello".to_string())],
        now,
    )
}

/// Moves a file of an in-memory file system.
fn rename(files: &mut BTreeMap<String, LocalSession>, from: &str, to: &str) {
    let moved = files.remove(from).unwrap();
    files.insert(to.to_string(), moved);
}

#[test]
fn fork_resets_accounting_and_trash_is_recoverable() {
    let store = store();
    let mut files: BTreeMap<String, LocalSession> = BTreeMap::new();
    let mut original = session("original", "/work", NOW);
    original.title = Some("Original".to_string());
    original.cost_micro = 42;
    original.rounds = 3;
    original.prepare_save(NOW);
    let messages = original.messages.clone();
    let fork = original.fork("fork".to_string(), "provider".to_string(), NOW);
    assert_eq!(fork.parent_session_id.as_deref(), Some("original"));
    assert_eq!(fork.cost_micro, 0);
    assert_eq!(fork.rounds, 0);
    assert_eq!(fork.messages, messages);
    assert_eq!(fork.title.as_deref(), Some("Fork of Original"));
    files.insert(store.path("fork").unwrap(), fork);

    rename(&mut files, &store.path("fork").unwrap(), &store.trash_path("fork"));
    assert!(!files.contains_key(&store.path("fork").unwrap()));
    assert!(open_session("fork", FileRead::NotFound).is_err());
    let trash: Vec<LocalSession> = files.into_values().collect();
    assert_eq!(list_sessions(&trash, Some("/work"), true).len(), 1);
    assert_eq!(list_sessions(&trash, Some("/elsewhere"), true).len(), 0);

    let mut files: BTreeMap<String, LocalSession> = BTreeMap::new();
    for kept in trash {
        files.insert(store.trash_path(&kept.id), kept);
    }
    rename(&mut files, &store.trash_path("fork"), &store.path("fork").unwrap());
    let restored = files.remove(&store.path("fork").unwrap()).unwrap();
    assert_eq!(finish_load("fork", 3, Ok(restored)).unwrap().id, "fork");
}

#[test]
fn live_and_stale_leases_are_distinguished() {
    let acquired = acquire_lease(
        "s",
        &lease_status("s", LockAttempt::Locked, None, NOW).unwrap(),
        false,
        "desktop",
        7,
        "test",
        NOW,
    )
    .unwrap();
    assert_eq!(acquired.surface, "desktop");
    assert_eq!(acquired.pid, 7);
    assert!(matches!(
        lease_status("s", LockAttempt::Contended, Some(acquired), NOW).unwrap(),
        SessionLeaseStatus::Live(_)
    ));
    assert!(matches!(
        lease_status("s", LockAttempt::Locked, None, NOW).unwrap(),
        SessionLeaseStatus::Available
    ));
    let left = SessionLeaseOwner {
        version: 1,
        session_id: "s".to_string(),
        surface: "desktop".to_string(),
        pid: 999,
        app_version: "test".to_string(),
        acquired_at: NOW,
    };
    let stale = lease_status("s", LockAttempt::Locked, Some(left), NOW).unwrap();
    assert!(matches!(stale, SessionLeaseStatus::Stale(_)));
    assert!(acquire_lease("s", &stale, false, "cli", 1, "test", NOW).is_err());
    assert!(acquire_lease("s", &stale, true, "cli", 1, "test", NOW).is_ok());
    let live = lease_status("s", LockAttempt::Contended, None, NOW).unwrap();
    match &live {
        SessionLeaseStatus::Live(owner) => assert_eq!(owner.surface, "another client"),
        other => panic!("{other:?}"),
    }
    assert_eq!(
        acquire_lease("s", &live, true, "cli", 1, "test", NOW).unwrap_err().message(),
        "session writer lease is unavailable"
    );
    assert_eq!(
        lease_status("s", LockAttempt::Failed("denied".to_string()), None, NOW),
        Err(SessionError::Io("denied".to_string()))
    );
}

#[test]
fn malformed_records_are_quarantined_and_newer_records_stay_read_only() {
    let store = store();
    let broken = store.path("broken").unwrap();
    match store.scan_file("broken", &broken, Ok("not json".to_string()), 5) {
        ScanStep::Quarantine { target, entry } => {
            assert_eq!(target, home(&[".ronin", "session-quarantine", "broken-5.json"]));
            assert!(matches!(
                entry,
                SessionScanEntry::Quarantined { id, path, .. } if id == "broken" && path == target
            ));
        }
        other => panic!("{other:?}"),
    }
    let future = store.path("future").unwrap();
    let raw = "{\"version\":99,\"id\":\"future\"}".to_string();
    match store.scan_file("future", &future, Ok(raw), 5) {
        ScanStep::Report(entry) => assert!(matches!(
            entry,
            SessionScanEntry::Unsupported { id, version: 99 } if id == "future"
        )),
        other => panic!("{other:?}"),
    }
    assert!(matches!(
        store.scan_file("old", "/p", Ok("{\"version\":1}".to_string()), 5),
        ScanStep::Load
    ));
    match store.scan_file("locked", "/p", Err("denied".to_string()), 5) {
        ScanStep::Report(SessionScanEntry::Quarantined { id, reason, path }) => {
            assert_eq!((id.as_str(), reason.as_str(), path.as_str()), ("locked", "denied", "/p"));
        }
        other => panic!("{other:?}"),
    }
}

#[test]
fn loaded_records_are_reported_for_their_workspace() {
    let make = || Ok(session("a", "/work", NOW));
    assert!(matches!(
        scan_loaded("a", "/p", make(), Some("/work")),
        Some(SessionScanEntry::Session(_))
    ));
    assert!(matches!(scan_loaded("a", "/p", make(), None), Some(SessionScanEntry::Session(_))));
    assert!(scan_loaded("a", "/p", make(), Some("/other")).is_none());
    match scan_loaded("a", "/p", Err(SessionError::NotFound("a".to_string())), None) {
        Some(SessionScanEntry::Quarantined { reason, .. }) => {
            assert_eq!(reason, "Session a was not found.");
        }
        other => panic!("{other:?}"),
    }
}

#[test]
fn reads_v1_session_and_writes_v2() {
    let mut value = session("a", "/work", NOW);
    value.model = "model".to_string();
    value.version = 1;
    value.compaction_count = 0;
    value.model_history = vec![];
    let version = check_version("a", read_json("{\"version\":1}")).unwrap();
    assert_eq!(version, 1);
    let loaded = finish_load("a", version, Ok(value)).unwrap();
    assert_eq!(loaded.version, 3);
    assert_eq!(loaded.model_history, vec!["model"]);
}

#[test]
fn loading_gives_back_what_saving_kept() {
    let mut session = session("a", "/work", NOW);
    session.title = Some("T".to_string());
    session.cost_micro = 7;
    session.activity = vec![SessionActivity::default(); 600];
    session.version = 1;
    session.prepare_save(at(5));
    assert_eq!((session.version, session.updated_at), (3, at(5)));
    assert_eq!(session.activity.len(), 500);
    let text = FileRead::Text("{\"version\":3}".to_string());
    let version = open_session("a", text).unwrap();
    assert_eq!(finish_load("a", version, Ok(session.clone())), Ok(session));
}

#[test]
fn records_that_cannot_be_loaded_say_why() {
    assert_eq!(
        open_session("a", FileRead::NotFound),
        Err(SessionError::NotFound("a".to_string()))
    );
    assert_eq!(
        open_session("a", FileRead::Failed("denied".to_string())).unwrap_err().message(),
        "denied"
    );
    assert_eq!(
        open_session("a", FileRead::Text("{\"version\":4}".to_string())).unwrap_err().message(),
        "Session a uses unsupported schema version 4."
    );
    assert!(matches!(
        open_session("a", FileRead::Text("nothing".to_string())),
        Err(SessionError::Corrupt(id, _)) if id == "a"
    ));
    assert_eq!(
        finish_load("a", 3, Err("missing field".to_string())).unwrap_err().message(),
        "Session a is corrupt: missing field"
    );
    assert_eq!(open_session("a", FileRead::Text("{\"version\":3}".to_string())), Ok(3));
    assert_eq!(session_version(&read_json("{}").unwrap()), 0);
}

#[test]
fn ids_name_files_in_the_store() {
    let store = store();
    assert_eq!(store.dir(), home(&[".ronin", "sessions"]));
    assert_eq!(store.path("a-B_9").unwrap(), home(&[".ronin", "sessions", "a-B_9.json"]));
    assert_eq!(store.trash_dir(), home(&[".ronin", "session-trash"]));
    assert_eq!(
        store.lease_paths("a").unwrap(),
        (
            home(&[".ronin", "session-leases", "a.lock"]),
            home(&[".ronin", "session-leases", "a.owner.json"]),
        )
    );
    assert_eq!(store.lease_dir(), home(&[".ronin", "session-leases"]));
    assert_eq!(store.quarantine_dir(), home(&[".ronin", "session-quarantine"]));
    assert!(!is_valid_id("../a"));
    assert!(store.path("../a").is_err());
    assert!(store.lease_paths("a/b").is_err());
    assert!(is_session_file(Some("json")));
    assert!(!is_session_file(Some("tmp")));
    assert!(!is_session_file(None));
    assert_eq!(ronin_dir("/home/me"), home(&[".ronin"]));
    assert_eq!(credentials_path("/home/me"), home(&[".ronin", "credentials"]));
    for home in ["/home/me", "/", "", "me", "/home/a\\b", "//me", "/x:y/z"] {
        assert!(secret_path(&credentials_path(home)), "{home}");
    }
}

#[test]
fn lists_put_the_latest_first() {
    let mut archived = session("archived", "/work", at(50));
    archived.set_archived(true, at(60));
    assert_eq!(archived.archived_at, Some(at(60)));
    let mut sessions = vec![
        session("old", "/work", at(10)),
        session("new", "/work", at(30)),
        session("other", "/else", at(40)),
        archived,
    ];
    assert_eq!(list_sessions(&sessions, Some("/work"), false), vec![1, 0]);
    assert_eq!(list_sessions(&sessions, None, false), vec![2, 1, 0]);
    assert_eq!(list_sessions(&sessions, None, true), vec![3, 2, 1, 0]);
    assert_eq!(latest(&sessions, "/work"), Some(1));
    assert_eq!(latest(&sessions, "/nowhere"), None);
    sessions[3].set_archived(false, at(70));
    assert_eq!(sessions[3].archived_at, None);
    assert_eq!(latest(&sessions, "/work"), Some(3));
}

#[test]
fn titles_are_bounded() {
    let mut session = session("a", "/work", NOW);
    assert!(session.rename("a", "  ").is_err());
    assert_eq!(session.title, None);
    session.rename("a", "  A title ").unwrap();
    assert_eq!(session.title.as_deref(), Some("A title"));
    assert!(session.rename("a", &"é".repeat(200)).is_ok());
    assert_eq!(
        session.rename("asked", &"é".repeat(201)).unwrap_err().message(),
        "Session asked is corrupt: title must contain 1-200 characters"
    );
    session.prepare_save(at(1_700_000_009));
    assert_eq!(session.updated_at, at(1_700_000_009));
}

#[test]
fn metadata_names_the_workspace_and_no_content() {
    let mut session = session("a", "/work/ronin", NOW);
    session.title = Some("secret".to_string());
    session.cost_micro = 9;
    let data = session.metadata("/work/ronin");
    assert_eq!(data.source, "cli");
    assert_eq!(data.schema_version, 2);
    assert_eq!(data.title, None);
    assert_eq!(data.summary, None);
    assert_eq!(data.workspace_name.as_deref(), Some("ronin"));
    assert_eq!(data.models, vec!["openai/test"]);
    assert_eq!(data.state, "active");
    assert_eq!(data.cost_micro, 9);
    assert_eq!(data.started_at, "2023-11-14T22:13:20+00:00");
    assert_eq!(session.metadata_for("/", "desktop").source, "desktop");
    assert_eq!(session.metadata_for("/", "desktop").workspace_name, None);
    let named = session.metadata_named(Some("p".to_string()), "cli");
    assert_eq!(named.workspace_name.as_deref(), Some("p"));
}

#[test]
fn times_are_written_in_three_ways() {
    assert_eq!(NOW.to_text(), "2023-11-14T22:13:20+00:00");
    assert_eq!(NOW.to_json_text(), "2023-11-14T22:13:20Z");
    assert_eq!(NOW.to_shown(), "2023-11-14 22:13:20 UTC");
    let parts = Timestamp { seconds: 0, nanos: 1_000_000 };
    assert_eq!(parts.to_json_text(), "1970-01-01T00:00:00.001Z");
}

#[test]
fn tokens_say_when_they_expire() {
    // {"exp":1700000000}
    assert_eq!(access_token_expiry("h.eyJleHAiOjE3MDAwMDAwMDB9.s"), Some(1_700_000_000));
    assert_eq!(access_token_expiry("h.eyJleHAiOjE3MDAwMDAwMDB9"), Some(1_700_000_000));
    assert_eq!(access_token_expiry("h"), None);
    assert_eq!(access_token_expiry("h.***.s"), None);
    assert_eq!(payload_expiry(&read_json("{\"exp\":\"soon\"}").ok()), None);
    assert_eq!(payload_expiry(&None), None);
}

#[test]
fn accounts_do_not_depend_on_trailing_slashes() {
    let account = keychain_account("https://api.example");
    assert_eq!(account, keychain_account("https://api.example//"));
    assert_ne!(account, keychain_account("https://other.example"));
    assert!(account.starts_with("api-"));
    assert_eq!(account.len(), 28);
    assert_eq!(keychain_account(""), "api-e3b0c44298fc1c149afbf4c8");
}

#[test]
fn tokens_belong_in_the_vault() {
    let mut credentials = Credentials::default();
    assert!(belongs_in_vault(&credentials));
    assert!(!moves_to_vault(&credentials));
    credentials.access_token = Some("t".to_string());
    assert!(moves_to_vault(&credentials));
    credentials.dev_user_id = Some("me".to_string());
    assert!(!belongs_in_vault(&credentials));
}

#[test]
fn states_have_names() {
    assert_eq!(state_name(&SessionState::Active), "active");
    assert_eq!(state_name(&SessionState::Completed), "completed");
    assert_eq!(state_name(&SessionState::Interrupted), "interrupted");
    assert_eq!(default_permission_mode(), "default");
}
