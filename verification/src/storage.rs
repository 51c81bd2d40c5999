//! Sessions and credentials: what is kept, where, and what becomes of it.
use crate::digest::{hex, hex_text, sha256, sha256_digest};
use crate::json::{
    integer_in, json_of_bytes, json_of_text, member, parse_json_bytes, read_json, unsigned_in, Json,
    JsonView,
};
use crate::loop_runner::{AgentStopReason, ContextShare};
use crate::order::{ordered, sort_indices};
use crate::paths::{
    ends_in, ends_in_name, file_name, holds_secret, join_on, join_way, joined_names_are_found,
    joined_paths_end_in_the_name, part_text, parts_on, pieces_on, portable,
    portable_paths_are_cut_alike, put_behind, reached, reached_on, secret_name, taken_apart,
    two_separators, PartView,
};
use crate::text::{
    ascii_lower, begins_with, cat2, cat3, cat4, cat5, chars_of, count_chars, decimal,
    decimals_read_as_their_number, finishes_with, has_text, number_text, occurs_at, outcome, same,
    signed_decimal, signed_text, split_char, split_on, text_of, texts, trim, trimmed,
};
use crate::tool::FileChange;
use crate::types::{AgentMessage, AgentSessionMetadata, TokenUsage};
use vstd::prelude::*;
use vstd::relations::{
    antisymmetric, reflexive, sorted_by, strongly_connected, total_ordering, transitive,
};
use vstd::utf8::encode_utf8;

verus! {

// ---------------------------------------------------------------------------------------------
// Credentials
// ---------------------------------------------------------------------------------------------

/// What an account is reached with.
#[derive(Debug, Clone, PartialEq, Eq)]
pub struct Credentials {
    pub dev_user_id: Option<String>,
    pub access_token: Option<String>,
    pub refresh_token: Option<String>,
    pub expires_at: Option<i64>,
}

impl Default for Credentials {
    fn default() -> (r: Self)
        ensures
            r.dev_user_id is None,
            r.access_token is None,
            r.refresh_token is None,
            r.expires_at is None,
    {
        Credentials {
            dev_user_id: None,
            access_token: None,
            refresh_token: None,
            expires_at: None,
        }
    }
}

/// The directory of the program in the home directory.
pub fn ronin_dir(home: &str) -> (r: String)
    ensures
        reached(home@, seq![".ronin"@], r@),
{
    let mut way: Vec<String> = Vec::new();
    way.push(".ronin".to_owned());
    assert(texts(way@) =~= seq![".ronin"@]);
    join_way(home, way)
}

/// A place in the directory of the program.
fn program_place(home: &str, name: &str) -> (r: String)
    ensures
        reached(home@, seq![".ronin"@, name@], r@),
{
    let mut way: Vec<String> = Vec::new();
    way.push(".ronin".to_owned());
    way.push(name.to_owned());
    assert(texts(way@) =~= seq![".ronin"@, name@]);
    join_way(home, way)
}

/// The file of credentials.
pub fn credentials_path(home: &str) -> (r: String)
    ensures
        reached(home@, seq![".ronin"@, "credentials"@], r@),
{
    program_place(home, "credentials")
}

/// Whether credentials found in the file move to the vault of the system.
pub fn moves_to_vault(found: &Credentials) -> (r: bool)
    ensures
        r == found.access_token is Some,
{
    found.access_token.is_some()
}

/// Whether credentials are kept in the vault of the system where it can keep them: those of a
/// developer stay in the file.
pub fn belongs_in_vault(value: &Credentials) -> (r: bool)
    ensures
        r == value.dev_user_id is None,
{
    value.dev_user_id.is_none()
}

/// A text without the slashes at its end.
pub open spec fn without_slashes(s: Seq<char>) -> Seq<char>
    decreases s.len(),
{
    if s.len() > 0 && s.last() == '/' {
        without_slashes(s.drop_last())
    } else {
        s
    }
}

/// A text without the slashes at its end.
pub fn trim_slashes(s: &str) -> (r: String)
    ensures
        r@ == without_slashes(s@),
{
    let v = chars_of(s);
    let mut n: usize = v.len();
    assert(s@.take(n as int) =~= s@);
    while n > 0 && v[n - 1] == '/'
        invariant
            v@ == s@,
            n <= v@.len(),
            without_slashes(s@) == without_slashes(s@.take(n as int)),
        decreases n,
    {
        assert(s@.take(n as int).drop_last() =~= s@.take(n - 1));
        n -= 1;
    }
    assert(v@.subrange(0, n as int) =~= s@.take(n as int));
    text_of(&v, 0, n)
}

/// The account in the vault of the system for a service.
pub open spec fn vault_account(api_url: Seq<char>) -> Seq<char> {
    "api-"@ + hex_text(sha256_digest(encode_utf8(without_slashes(api_url))).take(12))
}

/// The account in the vault of the system for a service.
pub fn keychain_account(api_url: &str) -> (r: String)
    ensures
        r@ == vault_account(api_url@),
{
    let url = trim_slashes(api_url);
    let digest = sha256(url.as_str().as_bytes());
    let head = vstd::slice::slice_subrange(digest.as_slice(), 0, 12);
    assert(head@ =~= digest@.take(12));
    cat2("api-", hex(head).as_str())
}

/// What `base64` decodes from text in the alphabet for addresses, without padding; nothing where it
/// gives an error.
pub uninterp spec fn base64_decoded(text: Seq<char>) -> Option<Seq<u8>>;

/// `base64`'s `Engine::decode` with `URL_SAFE_NO_PAD`: the bytes that a text encodes, or nothing
/// where it encodes none.
#[verifier::external_body]
fn decode_base64(text: &str) -> (r: Option<Vec<u8>>)
    ensures
        r.deep_view() == base64_decoded(text@),
{
    base64::Engine::decode(&base64::engine::general_purpose::URL_SAFE_NO_PAD, text).ok()
}

/// The time at which a token with a payload expires.
pub open spec fn expiry_in(payload: Option<JsonView>) -> Option<int> {
    match payload {
        Some(value) => integer_in(member(value, "exp"@)),
        None => None,
    }
}

/// The payload of a token.
pub open spec fn token_payload(token: Seq<char>) -> Option<JsonView> {
    let pieces = split_on(token, '.');
    if pieces.len() < 2 {
        None
    } else {
        match base64_decoded(pieces[1]) {
            Some(bytes) => json_of_bytes(bytes),
            None => None,
        }
    }
}

/// The time at which a token with a payload expires.
pub fn payload_expiry(payload: &Option<Json>) -> (r: Option<i64>)
    ensures
        match r {
            Some(t) => expiry_in(payload.deep_view()) == Some(t as int),
            None => expiry_in(payload.deep_view()) is None,
        },
{
    match payload {
        Some(value) => match value.get("exp") {
            Some(exp) => exp.as_i64(),
            None => None,
        },
        None => None,
    }
}

/// The time at which a token expires.
pub fn access_token_expiry(token: &str) -> (r: Option<i64>)
    ensures
        match r {
            Some(t) => expiry_in(token_payload(token@)) == Some(t as int),
            None => expiry_in(token_payload(token@)) is None,
        },
{
    let pieces = split_char(token, '.');
    assert(texts(pieces@).len() == pieces@.len());
    if pieces.len() < 2 {
        return payload_expiry(&None);
    }
    assert(texts(pieces@)[1] == pieces@[1]@);
    match decode_base64(pieces[1].as_str()) {
        Some(bytes) => {
            assert(bytes.deep_view() =~= bytes@);
            payload_expiry(&parse_json_bytes(bytes.as_slice()))
        },
        None => payload_expiry(&None),
    }
}

// ---------------------------------------------------------------------------------------------
// Sessions
// ---------------------------------------------------------------------------------------------

/// A point in time: seconds since 1970 and nanoseconds.
#[derive(Debug, Clone, Copy, PartialEq, Eq, Structural)]
pub struct Timestamp {
    pub seconds: i64,
    pub nanos: u32,
}

/// What `chrono` writes for a point in time as RFC 3339; nothing where `DateTime::from_timestamp`
/// gives none.
pub uninterp spec fn rfc3339(seconds: int, nanos: int) -> Option<Seq<char>>;

/// `chrono::DateTime::from_timestamp` and `to_rfc3339`: the text of a point in time, or nothing
/// where it is out of range.
#[verifier::external_body]
fn format_time(seconds: i64, nanos: u32) -> (r: Option<String>)
    ensures
        r.deep_view() == rfc3339(seconds as int, nanos as int),
{
    chrono::DateTime::from_timestamp(seconds, nanos).map(|time| time.to_rfc3339())
}

/// What `chrono` writes for a point in time as RFC 3339 with `Z` for the zone; nothing where
/// `DateTime::from_timestamp` gives none.
pub uninterp spec fn rfc3339_zulu(seconds: int, nanos: int) -> Option<Seq<char>>;

/// `chrono::DateTime::from_timestamp` and `to_rfc3339_opts` with as many digits as are needed and
/// `Z` for the zone: the text of a point in time as it stands in JSON, or nothing where it is out of
/// range.
#[verifier::external_body]
fn format_zulu(seconds: i64, nanos: u32) -> (r: Option<String>)
    ensures
        r.deep_view() == rfc3339_zulu(seconds as int, nanos as int),
{
    chrono::DateTime::from_timestamp(seconds, nanos).map(
        |time| time.to_rfc3339_opts(chrono::SecondsFormat::AutoSi, true),
    )
}

/// What `chrono` writes for a point in time for a reader; nothing where `DateTime::from_timestamp`
/// gives none.
pub uninterp spec fn readable_time(seconds: int, nanos: int) -> Option<Seq<char>>;

/// `chrono::DateTime::from_timestamp` and `to_string`: the text of a point in time for a reader, or
/// nothing where it is out of range.
#[verifier::external_body]
fn format_readable(seconds: i64, nanos: u32) -> (r: Option<String>)
    ensures
        r.deep_view() == readable_time(seconds as int, nanos as int),
{
    chrono::DateTime::from_timestamp(seconds, nanos).map(|time| time.to_string())
}

/// The text of a point in time, as it stands in JSON.
pub open spec fn json_time(t: Timestamp) -> Seq<char> {
    match rfc3339_zulu(t.seconds as int, t.nanos as int) {
        Some(text) => text,
        None => ""@,
    }
}

/// The text of a point in time, for a reader.
pub open spec fn shown_time(t: Timestamp) -> Seq<char> {
    match readable_time(t.seconds as int, t.nanos as int) {
        Some(text) => text,
        None => ""@,
    }
}

/// The text of a point in time.
pub open spec fn time_text(t: Timestamp) -> Seq<char> {
    match rfc3339(t.seconds as int, t.nanos as int) {
        Some(text) => text,
        None => ""@,
    }
}

impl Timestamp {
    /// The text of the point in time.
    pub fn to_text(&self) -> (r: String)
        ensures
            r@ == time_text(*self),
    {
        match format_time(self.seconds, self.nanos) {
            Some(text) => text,
            None => "".to_owned(),
        }
    }
}

impl Timestamp {
    /// The text of the point in time, as it stands in JSON.
    pub fn to_json_text(&self) -> (r: String)
        ensures
            r@ == json_time(*self),
    {
        match format_zulu(self.seconds, self.nanos) {
            Some(text) => text,
            None => "".to_owned(),
        }
    }

    /// The text of the point in time, for a reader.
    pub fn to_shown(&self) -> (r: String)
        ensures
            r@ == shown_time(*self),
    {
        match format_readable(self.seconds, self.nanos) {
            Some(text) => text,
            None => "".to_owned(),
        }
    }
}

/// Whether a point in time comes after another.
pub open spec fn later(a: Timestamp, b: Timestamp) -> bool {
    a.seconds > b.seconds || (a.seconds == b.seconds && a.nanos > b.nanos)
}

/// What a session is doing.
#[derive(Debug, Clone, Copy, PartialEq, Eq, Structural)]
pub enum SessionState {
    Active,
    Completed,
    Interrupted,
}

/// The name of what a session is doing.
pub open spec fn state_label(state: SessionState) -> Seq<char> {
    match state {
        SessionState::Active => "active"@,
        SessionState::Completed => "completed"@,
        SessionState::Interrupted => "interrupted"@,
    }
}

/// The name of what a session is doing.
pub fn state_name(state: &SessionState) -> (r: &'static str)
    ensures
        r@ == state_label(*state),
{
    match state {
        SessionState::Active => "active",
        SessionState::Completed => "completed",
        SessionState::Interrupted => "interrupted",
    }
}

/// Something that happened in a session.
#[derive(Debug, PartialEq, Eq)]
pub struct SessionActivity {
    pub id: String,
    pub kind: String,
    pub label: String,
    pub detail: String,
    pub created_at: String,
}

impl Clone for SessionActivity {
    fn clone(&self) -> (r: Self)
        ensures
            r == *self,
    {
        SessionActivity {
            id: self.id.clone(),
            kind: self.kind.clone(),
            label: self.label.clone(),
            detail: self.detail.clone(),
            created_at: self.created_at.clone(),
        }
    }
}

impl Default for SessionActivity {
    fn default() -> (r: Self)
        ensures
            r.id@.len() == 0,
            r.kind@.len() == 0,
            r.label@.len() == 0,
            r.detail@.len() == 0,
            r.created_at@.len() == 0,
    {
        SessionActivity {
            id: String::new(),
            kind: String::new(),
            label: String::new(),
            detail: String::new(),
            created_at: String::new(),
        }
    }
}

/// A conversation that is kept on disk.
#[derive(Debug, Clone, PartialEq, Eq)]
pub struct LocalSession {
    pub version: u8,
    pub id: String,
    pub cwd: String,
    pub model: String,
    pub provider_session_id: String,
    pub messages: Vec<AgentMessage>,
    pub cost_micro: u64,
    pub rounds: u32,
    pub last_usage: Option<TokenUsage>,
    pub context: Option<ContextShare>,
    pub active_generation_id: Option<String>,
    pub stop_reason: Option<AgentStopReason>,
    pub state: SessionState,
    pub created_at: Timestamp,
    pub updated_at: Timestamp,
    pub compaction_count: u32,
    pub model_history: Vec<String>,
    pub title: Option<String>,
    pub archived_at: Option<Timestamp>,
    pub parent_session_id: Option<String>,
    pub permission_mode: String,
    pub pending_turn_base: Option<usize>,
    pub activity: Vec<SessionActivity>,
    pub last_turn_changes: Vec<FileChange>,
    pub last_turn_affected_paths: Vec<String>,
    pub last_turn_commands: Vec<String>,
}

/// The permission mode of a new session.
pub fn default_permission_mode() -> (r: String)
    ensures
        r@ == "default"@,
{
    "default".to_owned()
}

/// Why a session cannot be had.
#[derive(Debug, Clone, PartialEq, Eq)]
pub enum SessionError {
    NotFound(String),
    Corrupt(String, String),
    Version(String, u64),
    Io(String),
}

/// The mathematical value of a [`SessionError`].
pub enum SessionErrorView {
    NotFound(Seq<char>),
    Corrupt(Seq<char>, Seq<char>),
    Version(Seq<char>, nat),
    Io(Seq<char>),
}

impl View for SessionError {
    type V = SessionErrorView;

    open spec fn view(&self) -> SessionErrorView {
        match self {
            SessionError::NotFound(id) => SessionErrorView::NotFound(id@),
            SessionError::Corrupt(id, reason) => SessionErrorView::Corrupt(id@, reason@),
            SessionError::Version(id, version) => SessionErrorView::Version(id@, *version as nat),
            SessionError::Io(message) => SessionErrorView::Io(message@),
        }
    }
}

/// An error as it is shown.
pub open spec fn session_error_text(error: SessionErrorView) -> Seq<char> {
    match error {
        SessionErrorView::NotFound(id) => "Session "@ + id + " was not found."@,
        SessionErrorView::Corrupt(id, reason) => "Session "@ + id + " is corrupt: "@ + reason,
        SessionErrorView::Version(id, version) => "Session "@ + id
            + " uses unsupported schema version "@ + decimal(version) + "."@,
        SessionErrorView::Io(message) => message,
    }
}

impl SessionError {
    /// The error as it is shown.
    pub fn message(&self) -> (r: String)
        ensures
            r@ == session_error_text(self@),
    {
        match self {
            SessionError::NotFound(id) => cat3("Session ", id.as_str(), " was not found."),
            SessionError::Corrupt(id, reason) => cat4(
                "Session ",
                id.as_str(),
                " is corrupt: ",
                reason.as_str(),
            ),
            SessionError::Version(id, version) => cat5(
                "Session ",
                id.as_str(),
                " uses unsupported schema version ",
                number_text(*version).as_str(),
                ".",
            ),
            SessionError::Io(message) => message.clone(),
        }
    }
}

/// Whether a session is what is kept of another at a time: in the present version, with at most the
/// first 500 of what happened in it.
pub open spec fn is_saved(o: LocalSession, now: Timestamp, f: LocalSession) -> bool {
    &&& f == (LocalSession { version: 3, updated_at: now, activity: f.activity, ..o })
    &&& f.activity@ == if o.activity@.len() > 500 {
        o.activity@.take(500)
    } else {
        o.activity@
    }
}

/// Whether a session is what a record of a version stands for: earlier versions counted no
/// summaries, and may lack the models.
pub open spec fn is_loaded(version: nat, o: LocalSession, f: LocalSession) -> bool {
    if version <= 2 {
        &&& f == (LocalSession {
            version: 3,
            compaction_count: 0,
            model_history: f.model_history,
            ..o
        })
        &&& if o.model_history@.len() == 0 {
            texts(f.model_history@) == seq![o.model@]
        } else {
            f.model_history == o.model_history
        }
    } else {
        f == o
    }
}

/// Whether a session is a fork of another under fresh ids: the conversation stays, the account of
/// what it cost and did starts anew.
pub open spec fn is_fork(
    s: LocalSession,
    id: String,
    provider_session_id: String,
    now: Timestamp,
    r: LocalSession,
) -> bool {
    &&& r.version == s.version
    &&& r.id == id
    &&& r.cwd == s.cwd
    &&& r.model == s.model
    &&& r.provider_session_id == provider_session_id
    &&& r.messages == s.messages
    &&& r.cost_micro == 0
    &&& r.rounds == 0
    &&& r.last_usage is None
    &&& r.context is None
    &&& r.active_generation_id is None
    &&& r.stop_reason is None
    &&& r.state == SessionState::Active
    &&& r.created_at == now
    &&& r.updated_at == now
    &&& r.compaction_count == 0
    &&& r.model_history == s.model_history
    &&& r.title.deep_view() == Some(
        "Fork of "@ + match s.title {
            Some(title) => title@,
            None => "Untitled session"@,
        },
    )
    &&& r.archived_at is None
    &&& r.parent_session_id == Some(s.id)
    &&& r.permission_mode@ == "default"@
    &&& r.pending_turn_base is None
    &&& r.activity@.len() == 0
    &&& r.last_turn_changes@.len() == 0
    &&& r.last_turn_affected_paths@.len() == 0
    &&& r.last_turn_commands@.len() == 0
}

impl LocalSession {
    /// A session that starts now, under fresh ids.
    pub fn create(
        id: String,
        provider_session_id: String,
        cwd: &str,
        model: &str,
        messages: Vec<AgentMessage>,
        now: Timestamp,
    ) -> (r: Self)
        ensures
            r.version == 3,
            r.id == id,
            r.cwd@ == cwd@,
            r.model@ == model@,
            r.provider_session_id == provider_session_id,
            r.messages == messages,
            r.cost_micro == 0,
            r.rounds == 0,
            r.last_usage is None,
            r.context is None,
            r.active_generation_id is None,
            r.stop_reason is None,
            r.state == SessionState::Active,
            r.created_at == now,
            r.updated_at == now,
            r.compaction_count == 0,
            texts(r.model_history@) == seq![model@],
            r.title is None,
            r.archived_at is None,
            r.parent_session_id is None,
            r.permission_mode@ == "default"@,
            r.pending_turn_base is None,
            r.activity@.len() == 0,
            r.last_turn_changes@.len() == 0,
            r.last_turn_affected_paths@.len() == 0,
            r.last_turn_commands@.len() == 0,
    {
        let mut model_history: Vec<String> = Vec::new();
        model_history.push(model.to_owned());
        assert(texts(model_history@) =~= seq![model@]);
        LocalSession {
            version: 3,
            id,
            cwd: cwd.to_owned(),
            model: model.to_owned(),
            provider_session_id,
            messages,
            cost_micro: 0,
            rounds: 0,
            last_usage: None,
            context: None,
            active_generation_id: None,
            stop_reason: None,
            state: SessionState::Active,
            created_at: now,
            updated_at: now,
            compaction_count: 0,
            model_history,
            title: None,
            archived_at: None,
            parent_session_id: None,
            permission_mode: default_permission_mode(),
            pending_turn_base: None,
            activity: Vec::new(),
            last_turn_changes: Vec::new(),
            last_turn_affected_paths: Vec::new(),
            last_turn_commands: Vec::new(),
        }
    }

    /// Brings a session that was read in a version to the present one.
    pub fn migrate(&mut self, version: u64)
        ensures
            is_loaded(version as nat, *old(self), *final(self)),
    {
        if version <= 2 {
            self.version = 3;
            self.compaction_count = 0;
            if self.model_history.len() == 0 {
                let mut history: Vec<String> = Vec::new();
                history.push(self.model.clone());
                assert(texts(history@) =~= seq![self.model@]);
                self.model_history = history;
            }
        }
    }

    /// Makes a session ready to be saved at a time: in the present version, with at most the first
    /// 500 of what happened in it.
    pub fn prepare_save(&mut self, now: Timestamp)
        ensures
            is_saved(*old(self), now, *final(self)),
    {
        self.version = 3;
        self.activity.truncate(500);
        self.updated_at = now;
        assert(self.activity@ =~= if old(self).activity@.len() > 500 {
            old(self).activity@.take(500)
        } else {
            old(self).activity@
        });
    }

    /// Gives a session that was asked for by an id a title.
    pub fn rename(&mut self, id: &str, title: &str) -> (r: Result<(), SessionError>)
        ensures
            match r {
                Ok(_) => {
                    &&& 1 <= trimmed(title@).len() <= 200
                    &&& final(self).title.deep_view() == Some(trimmed(title@))
                    &&& *final(self) == (LocalSession { title: final(self).title, ..*old(self) })
                },
                Err(e) => {
                    &&& !(1 <= trimmed(title@).len() <= 200)
                    &&& *final(self) == *old(self)
                    &&& e@ == SessionErrorView::Corrupt(
                        id@,
                        "title must contain 1-200 characters"@,
                    )
                },
            },
    {
        let title = trim(title);
        let len = count_chars(title.as_str());
        if len == 0 || len > 200 {
            return Err(
                SessionError::Corrupt(
                    id.to_owned(),
                    "title must contain 1-200 characters".to_owned(),
                ),
            );
        }
        self.title = Some(title);
        Ok(())
    }

    /// Archives a session at a time, or takes it out of the archive.
    pub fn set_archived(&mut self, archived: bool, now: Timestamp)
        ensures
            *final(self) == (LocalSession {
                archived_at: if archived {
                    Some(now)
                } else {
                    None
                },
                ..*old(self)
            }),
    {
        self.archived_at =
        if archived {
            Some(now)
        } else {
            None
        };
    }

    /// Turns a session into a fork of itself under fresh ids: the conversation stays, the account
    /// of what it cost and did starts anew.
    pub fn fork(self, id: String, provider_session_id: String, now: Timestamp) -> (r: Self)
        ensures
            is_fork(self, id, provider_session_id, now, r),
    {
        let title = match &self.title {
            Some(title) => cat2("Fork of ", title.as_str()),
            None => cat2("Fork of ", "Untitled session"),
        };
        LocalSession {
            version: self.version,
            id,
            cwd: self.cwd,
            model: self.model,
            provider_session_id,
            messages: self.messages,
            cost_micro: 0,
            rounds: 0,
            last_usage: None,
            context: None,
            active_generation_id: None,
            stop_reason: None,
            state: SessionState::Active,
            created_at: now,
            updated_at: now,
            compaction_count: 0,
            model_history: self.model_history,
            title: Some(title),
            archived_at: None,
            parent_session_id: Some(self.id),
            permission_mode: default_permission_mode(),
            pending_turn_base: None,
            activity: Vec::new(),
            last_turn_changes: Vec::new(),
            last_turn_affected_paths: Vec::new(),
            last_turn_commands: Vec::new(),
        }
    }

    /// What the service is told of a session that runs in the terminal.
    pub fn metadata(&self, cwd: &str) -> (r: AgentSessionMetadata)
        ensures
            ends_in(cwd@, r.workspace_name.deep_view()),
            describes(r, *self, r.workspace_name.deep_view(), "cli"@),
    {
        self.metadata_for(cwd, "cli")
    }

    /// What the service is told of a session: neither its title nor what was said in it.
    pub fn metadata_for(&self, cwd: &str, source: &str) -> (r: AgentSessionMetadata)
        ensures
            ends_in(cwd@, r.workspace_name.deep_view()),
            describes(r, *self, r.workspace_name.deep_view(), source@),
    {
        self.metadata_named(file_name(cwd), source)
    }

    /// What the service is told of a session in a workspace that has a name, or none.
    pub fn metadata_named(&self, name: Option<String>, source: &str) -> (r: AgentSessionMetadata)
        ensures
            describes(r, *self, name.deep_view(), source@),
    {
        let mut models: Vec<String> = Vec::new();
        if self.model_history.len() == 0 {
            models.push(self.model.clone());
            assert(texts(models@) =~= seq![self.model@]);
        } else {
            models = copy_texts(&self.model_history);
        }
        AgentSessionMetadata {
            schema_version: 2,
            session_id: self.id.clone(),
            title: None,
            summary: None,
            workspace_name: name,
            models,
            cost_micro: self.cost_micro,
            rounds: self.rounds,
            state: state_name(&self.state).to_owned(),
            source: source.to_owned(),
            started_at: self.created_at.to_text(),
            updated_at: self.updated_at.to_text(),
            archived_at: match &self.archived_at {
                Some(t) => Some(t.to_text()),
                None => None,
            },
            parent_session_id: match &self.parent_session_id {
                Some(id) => Some(id.clone()),
                None => None,
            },
        }
    }
}

/// Copies texts.
pub fn copy_texts(v: &Vec<String>) -> (r: Vec<String>)
    ensures
        r@ == v@,
        texts(r@) == texts(v@),
{
    let mut r: Vec<String> = Vec::new();
    let mut i: usize = 0;
    while i < v.len()
        invariant
            i <= v@.len(),
            r@ == v@.take(i as int),
        decreases v.len() - i,
    {
        r.push(v[i].clone());
        assert(r@ =~= v@.take(i + 1));
        i += 1;
    }
    assert(r@ =~= v@);
    r
}

/// Whether metadata says of a session what the service is told of it.
pub open spec fn describes(
    m: AgentSessionMetadata,
    s: LocalSession,
    name: Option<Seq<char>>,
    source: Seq<char>,
) -> bool {
    &&& m.schema_version == 2
    &&& m.session_id == s.id
    &&& m.title is None
    &&& m.summary is None
    &&& m.workspace_name.deep_view() == name
    &&& texts(m.models@) == if s.model_history@.len() == 0 {
        seq![s.model@]
    } else {
        texts(s.model_history@)
    }
    &&& m.cost_micro == s.cost_micro
    &&& m.rounds == s.rounds
    &&& m.state@ == state_label(s.state)
    &&& m.source@ == source
    &&& m.started_at@ == time_text(s.created_at)
    &&& m.updated_at@ == time_text(s.updated_at)
    &&& m.archived_at.deep_view() == match s.archived_at {
        Some(t) => Some(time_text(t)),
        None => None,
    }
    &&& m.parent_session_id == s.parent_session_id
}

// ---------------------------------------------------------------------------------------------
// Where sessions are kept
// ---------------------------------------------------------------------------------------------

/// Whether a character may stand in the id of a session.
pub open spec fn id_char(c: char) -> bool {
    ('a' <= c <= 'z') || ('A' <= c <= 'Z') || ('0' <= c <= '9') || c == '_' || c == '-'
}

/// Whether a text may be the id of a session.
pub open spec fn valid_id(id: Seq<char>) -> bool {
    forall|i: int| 0 <= i < id.len() ==> id_char(#[trigger] id[i])
}

/// Whether a text may be the id of a session.
pub fn is_valid_id(id: &str) -> (r: bool)
    ensures
        r == valid_id(id@),
{
    let v = chars_of(id);
    let mut i: usize = 0;
    while i < v.len()
        invariant
            i <= v@.len(),
            v@ == id@,
            forall|k: int| 0 <= k < i ==> id_char(#[trigger] id@[k]),
        decreases v.len() - i,
    {
        let c = v[i];
        if !(('a' <= c && c <= 'z') || ('A' <= c && c <= 'Z') || ('0' <= c && c <= '9') || c == '_'
            || c == '-') {
            assert(!id_char(id@[i as int]));
            return false;
        }
        i += 1;
    }
    true
}

/// The places where sessions are kept below a home directory.
#[derive(Debug, Clone, PartialEq, Eq)]
pub struct SessionStore {
    home: String,
}

/// What is said of an id that no session can have.
pub open spec fn invalid_id(id: Seq<char>) -> SessionErrorView {
    SessionErrorView::Corrupt(id, "invalid id"@)
}

impl SessionStore {
    /// The home directory.
    pub closed spec fn base(self) -> Seq<char> {
        self.home@
    }

    /// Whether a text is the directory of the program for one of the things it keeps.
    pub open spec fn is_place(self, name: Seq<char>, dir: Seq<char>) -> bool {
        reached(self.base(), seq![".ronin"@, name], dir)
    }

    /// Whether a text is a file in the directory of the program for one of the things it keeps.
    pub open spec fn is_file(self, name: Seq<char>, file: Seq<char>, path: Seq<char>) -> bool {
        reached(self.base(), seq![".ronin"@, name, file], path)
    }

    fn file_in(&self, name: &str, file: &str) -> (r: String)
        ensures
            self.is_file(name@, file@, r@),
    {
        let mut way: Vec<String> = Vec::new();
        way.push(".ronin".to_owned());
        way.push(name.to_owned());
        way.push(file.to_owned());
        assert(texts(way@) =~= seq![".ronin"@, name@, file@]);
        join_way(self.home.as_str(), way)
    }

    /// The places below a home directory.
    pub fn new(home: String) -> (r: Self)
        ensures
            r.base() == home@,
    {
        SessionStore { home }
    }

    /// The directory of sessions.
    pub fn dir(&self) -> (r: String)
        ensures
            self.is_place("sessions"@, r@),
    {
        program_place(self.home.as_str(), "sessions")
    }

    /// The file of a session.
    pub fn path(&self, id: &str) -> (r: Result<String, SessionError>)
        ensures
            match r {
                Ok(path) => valid_id(id@) && self.is_file("sessions"@, id@ + ".json"@, path@),
                Err(e) => !valid_id(id@) && e@ == invalid_id(id@),
            },
    {
        if !is_valid_id(id) {
            return Err(SessionError::Corrupt(id.to_owned(), "invalid id".to_owned()));
        }
        Ok(self.file_in("sessions", cat2(id, ".json").as_str()))
    }

    /// The directory of sessions that were thrown away.
    pub fn trash_dir(&self) -> (r: String)
        ensures
            self.is_place("session-trash"@, r@),
    {
        program_place(self.home.as_str(), "session-trash")
    }

    /// The file of a session that was thrown away.
    pub fn trash_path(&self, id: &str) -> (r: String)
        ensures
            self.is_file("session-trash"@, id@ + ".json"@, r@),
    {
        self.file_in("session-trash", cat2(id, ".json").as_str())
    }

    /// The directory of files that are no sessions.
    pub fn quarantine_dir(&self) -> (r: String)
        ensures
            self.is_place("session-quarantine"@, r@),
    {
        program_place(self.home.as_str(), "session-quarantine")
    }

    /// The directory of leases.
    pub fn lease_dir(&self) -> (r: String)
        ensures
            self.is_place("session-leases"@, r@),
    {
        program_place(self.home.as_str(), "session-leases")
    }

    /// The lock of a session and the file that says who holds it.
    pub fn lease_paths(&self, id: &str) -> (r: Result<(String, String), SessionError>)
        ensures
            match r {
                Ok((lock, owner)) => {
                    &&& valid_id(id@)
                    &&& self.is_file("session-leases"@, id@ + ".lock"@, lock@)
                    &&& self.is_file("session-leases"@, id@ + ".owner.json"@, owner@)
                },
                Err(e) => !valid_id(id@) && e@ == invalid_id(id@),
            },
    {
        if let Err(e) = self.path(id) {
            return Err(e);
        }
        Ok(
            (
                self.file_in("session-leases", cat2(id, ".lock").as_str()),
                self.file_in("session-leases", cat2(id, ".owner.json").as_str()),
            ),
        )
    }
}

// ---------------------------------------------------------------------------------------------
// Reading
// ---------------------------------------------------------------------------------------------

/// What came of reading a file.
#[derive(Debug, PartialEq, Eq)]
pub enum FileRead {
    Text(String),
    NotFound,
    Failed(String),
}

/// The version that a session was written in; 0 where it says none.
pub open spec fn version_in(value: JsonView) -> nat {
    match unsigned_in(member(value, "version"@)) {
        Some(n) => n,
        None => 0,
    }
}

/// The version that a session was written in.
pub fn session_version(value: &Json) -> (r: u64)
    ensures
        r == version_in(value@),
{
    match value.get("version") {
        Some(version) => match version.as_u64() {
            Some(n) => n,
            None => 0,
        },
        None => 0,
    }
}

/// The version of the file of a session that can be read, where `parsed` is its text read as JSON.
pub open spec fn version_gate(id: Seq<char>, parsed: Result<JsonView, Seq<char>>) -> Result<
    nat,
    SessionErrorView,
> {
    match parsed {
        Err(message) => Err(SessionErrorView::Corrupt(id, message)),
        Ok(value) => if 1 <= version_in(value) <= 3 {
            Ok(version_in(value))
        } else {
            Err(SessionErrorView::Version(id, version_in(value)))
        },
    }
}

/// The version of the file of a session that can be read.
pub open spec fn load_gate(id: Seq<char>, file: FileRead) -> Result<nat, SessionErrorView> {
    if !valid_id(id) {
        Err(invalid_id(id))
    } else {
        match file {
            FileRead::NotFound => Err(SessionErrorView::NotFound(id)),
            FileRead::Failed(message) => Err(SessionErrorView::Io(message@)),
            FileRead::Text(raw) => version_gate(id, json_of_text(raw@)),
        }
    }
}

/// The value of a result of reading a version.
pub open spec fn version_outcome(r: Result<u64, SessionError>) -> Result<nat, SessionErrorView> {
    match r {
        Ok(n) => Ok(n as nat),
        Err(e) => Err(e@),
    }
}

/// The version of the file of a session that can be read, where `parsed` is its text read as JSON.
pub fn check_version(id: &str, parsed: Result<Json, String>) -> (r: Result<u64, SessionError>)
    ensures
        version_outcome(r) == version_gate(id@, outcome(parsed)),
{
    match parsed {
        Err(message) => Err(SessionError::Corrupt(id.to_owned(), message)),
        Ok(value) => {
            let version = session_version(&value);
            if version >= 1 && version <= 3 {
                Ok(version)
            } else {
                Err(SessionError::Version(id.to_owned(), version))
            }
        },
    }
}

/// The version of the file of a session that can be read.
pub fn open_session(id: &str, file: FileRead) -> (r: Result<u64, SessionError>)
    ensures
        version_outcome(r) == load_gate(id@, file),
{
    if !is_valid_id(id) {
        return Err(SessionError::Corrupt(id.to_owned(), "invalid id".to_owned()));
    }
    match file {
        FileRead::NotFound => Err(SessionError::NotFound(id.to_owned())),
        FileRead::Failed(message) => Err(SessionError::Io(message)),
        FileRead::Text(raw) => check_version(id, read_json(raw.as_str())),
    }
}

/// A session as it is used, from what its file decodes to and the version of the file.
pub fn finish_load(id: &str, version: u64, decoded: Result<LocalSession, String>) -> (r: Result<
    LocalSession,
    SessionError,
>)
    ensures
        match r {
            Ok(s) => decoded matches Ok(o) && is_loaded(version as nat, o, s),
            Err(e) => decoded matches Err(message) && e@ == SessionErrorView::Corrupt(
                id@,
                message@,
            ),
        },
{
    match decoded {
        Ok(session) => {
            let mut session = session;
            session.migrate(version);
            Ok(session)
        },
        Err(message) => Err(SessionError::Corrupt(id.to_owned(), message)),
    }
}

// ---------------------------------------------------------------------------------------------
// Lists
// ---------------------------------------------------------------------------------------------

/// The times at which sessions were last written.
pub open spec fn times(sessions: Seq<LocalSession>) -> Seq<Timestamp> {
    sessions.map_values(|s: LocalSession| s.updated_at)
}

/// The order of sessions in a list: the one written last comes first.
pub open spec fn newest_first(t: Seq<Timestamp>) -> spec_fn(int, int) -> bool {
    |i: int, j: int| later(t[i], t[j]) || (t[i] == t[j] && i <= j)
}

/// Whether a session is in a list: of a directory where one is given, and not archived unless all
/// are wanted.
pub open spec fn in_list(session: LocalSession, cwd: Option<Seq<char>>, all: bool) -> bool {
    &&& cwd is Some ==> session.cwd@ == cwd->0
    &&& all || session.archived_at is None
}

/// The places of the sessions in a list, of the first `n` in the order of the list.
pub open spec fn list_places(
    sessions: Seq<LocalSession>,
    order: Seq<int>,
    cwd: Option<Seq<char>>,
    all: bool,
    n: int,
) -> Seq<int>
    decreases n,
{
    if n <= 0 {
        Seq::empty()
    } else {
        let before = list_places(sessions, order, cwd, all, n - 1);
        if in_list(sessions[order[n - 1]], cwd, all) {
            before.push(order[n - 1])
        } else {
            before
        }
    }
}

/// The places of the sessions in a list, in the order of the list.
pub open spec fn session_list(sessions: Seq<LocalSession>, cwd: Option<Seq<char>>, all: bool) -> Seq<
    int,
> {
    list_places(
        sessions,
        ordered(sessions.len(), newest_first(times(sessions))),
        cwd,
        all,
        sessions.len() as int,
    )
}

proof fn newest_first_is_total(t: Seq<Timestamp>)
    ensures
        total_ordering(newest_first(t)),
{
    let leq = newest_first(t);
    assert forall|i: int| #[trigger] leq(i, i) by {}
    assert forall|i: int, j: int| #[trigger] leq(i, j) && #[trigger] leq(j, i) implies i == j by {}
    assert forall|i: int, j: int, k: int| #[trigger] leq(i, j) && #[trigger] leq(j, k) implies leq(
        i,
        k,
    ) by {}
    assert forall|i: int, j: int| #[trigger] leq(i, j) || #[trigger] leq(j, i) by {}
    assert(reflexive(leq) && antisymmetric(leq) && transitive(leq) && strongly_connected(leq));
}

/// The places of the sessions in a list: those of a directory where one is given, those that are
/// not archived unless all are wanted, and the one written last first.
pub fn list_sessions(sessions: &Vec<LocalSession>, cwd: Option<&str>, all: bool) -> (r: Vec<usize>)
    ensures
        r@.map_values(|i: usize| i as int) == session_list(sessions@, cwd.deep_view(), all),
        forall|k: int| 0 <= k < r@.len() ==> #[trigger] r@[k] < sessions@.len(),
{
    let ghost t = times(sessions@);
    proof {
        newest_first_is_total(t);
    }
    let before = |i: usize, j: usize| -> (b: bool)
        requires
            i < sessions@.len(),
            j < sessions@.len(),
        ensures
            b == newest_first(times(sessions@))(i as int, j as int),
        {
            let a = sessions[i].updated_at;
            let c = sessions[j].updated_at;
            a.seconds > c.seconds || (a.seconds == c.seconds && (a.nanos > c.nanos || (a.nanos
                == c.nanos && i <= j)))
        };
    let order = sort_indices(sessions.len(), before, Ghost(newest_first(t)));
    let ghost places = ordered(sessions@.len(), newest_first(t));
    let mut r: Vec<usize> = Vec::new();
    let mut k: usize = 0;
    assert(r@.map_values(|i: usize| i as int) =~= Seq::empty());
    while k < order.len()
        invariant
            k <= order@.len(),
            order@.len() == sessions@.len(),
            forall|q: int| 0 <= q < order@.len() ==> #[trigger] order@[q] < sessions@.len(),
            order@.map_values(|i: usize| i as int) == places,
            r@.map_values(|i: usize| i as int) == list_places(
                sessions@,
                places,
                cwd.deep_view(),
                all,
                k as int,
            ),
            forall|q: int| 0 <= q < r@.len() ==> #[trigger] r@[q] < sessions@.len(),
        decreases order.len() - k,
    {
        let i = order[k];
        assert(places[k as int] == i as int);
        let session = &sessions[i];
        let here = match cwd {
            Some(dir) => same(session.cwd.as_str(), dir),
            None => true,
        };
        if here && (all || session.archived_at.is_none()) {
            let ghost now = r@.map_values(|i: usize| i as int);
            r.push(i);
            assert(r@.map_values(|i: usize| i as int) =~= now.push(i as int));
        }
        k += 1;
    }
    r
}

/// The place of the session that was written last in a directory and is not archived.
pub fn latest(sessions: &Vec<LocalSession>, cwd: &str) -> (r: Option<usize>)
    ensures
        ({
            let list = session_list(sessions@, Some(cwd@), false);
            match r {
                Some(i) => list.len() > 0 && i == list[0] && i < sessions@.len(),
                None => list.len() == 0,
            }
        }),
{
    let list = list_sessions(sessions, Some(cwd), false);
    let ghost places = list@.map_values(|i: usize| i as int);
    assert(places.len() == list@.len());
    if list.len() > 0 {
        assert(places[0] == list@[0] as int);
        Some(list[0])
    } else {
        None
    }
}

// ---------------------------------------------------------------------------------------------
// Scans
// ---------------------------------------------------------------------------------------------

/// What a scan found.
#[derive(Debug, Clone, PartialEq, Eq)]
pub enum SessionScanEntry {
    Session(Box<LocalSession>),
    Unsupported { id: String, version: u64 },
    Quarantined { id: String, reason: String, path: String },
}

/// What is to be done with a file that a scan found.
#[derive(Debug, PartialEq, Eq)]
pub enum ScanStep {
    /// The file is reported as it is.
    Report(SessionScanEntry),
    /// The file is moved to a path and then reported.
    Quarantine { target: String, entry: SessionScanEntry },
    /// The file is read as a session.
    Load,
}

/// Whether an entry reports a file that is no session.
pub open spec fn reports_quarantined(
    entry: SessionScanEntry,
    id: Seq<char>,
    reason: Seq<char>,
    path: Seq<char>,
) -> bool {
    entry matches SessionScanEntry::Quarantined { id: i, reason: r, path: p } && i@ == id && r@
        == reason && p@ == path
}

/// The name that a file that is no session gets at a time.
pub open spec fn quarantine_name(id: Seq<char>, now: int) -> Seq<char> {
    id + "-"@ + signed_decimal(now) + ".json"@
}

/// Whether a step is what a scan does with a file, where `parsed` is its text read as JSON.
pub open spec fn scans(
    step: ScanStep,
    store: SessionStore,
    id: Seq<char>,
    path: Seq<char>,
    parsed: Result<JsonView, Seq<char>>,
    now: int,
) -> bool {
    match parsed {
        Err(reason) => step matches ScanStep::Quarantine { target, entry } && store.is_file(
            "session-quarantine"@,
            quarantine_name(id, now),
            target@,
        ) && reports_quarantined(entry, id, reason, target@),
        Ok(value) => if version_in(value) > 3 {
            step matches ScanStep::Report(entry) && (entry matches SessionScanEntry::Unsupported {
                id: i,
                version,
            } && i@ == id && version == version_in(value))
        } else {
            step is Load
        },
    }
}

impl SessionStore {
    /// What a scan does with a file whose text was read as JSON.
    pub fn scan_parsed(&self, id: &str, path: &str, parsed: Result<Json, String>, now: i64) -> (r:
        ScanStep)
        ensures
            scans(
                r,
                *self,
                id@,
                path@,
                outcome(parsed),
                now as int,
            ),
    {
        match parsed {
            Err(reason) => {
                let name = cat4(id, "-", signed_text(now).as_str(), ".json");
                let target = self.file_in("session-quarantine", name.as_str());
                let entry = SessionScanEntry::Quarantined {
                    id: id.to_owned(),
                    reason,
                    path: target.clone(),
                };
                ScanStep::Quarantine { target, entry }
            },
            Ok(value) => {
                let version = session_version(&value);
                if version > 3 {
                    ScanStep::Report(
                        SessionScanEntry::Unsupported { id: id.to_owned(), version },
                    )
                } else {
                    ScanStep::Load
                }
            },
        }
    }

    /// What a scan does with a file: `raw` is its text or why it could not be read, and `now` the
    /// seconds since 1970.
    pub fn scan_file(&self, id: &str, path: &str, raw: Result<String, String>, now: i64) -> (r:
        ScanStep)
        ensures
            match raw {
                Err(reason) => r matches ScanStep::Report(entry) && reports_quarantined(
                    entry,
                    id@,
                    reason@,
                    path@,
                ),
                Ok(text) => scans(
                    r,
                    *self,
                    id@,
                    path@,
                    json_of_text(text@),
                    now as int,
                ),
            },
    {
        match raw {
            Err(reason) => ScanStep::Report(
                SessionScanEntry::Quarantined {
                    id: id.to_owned(),
                    reason,
                    path: path.to_owned(),
                },
            ),
            Ok(text) => self.scan_parsed(id, path, read_json(text.as_str()), now),
        }
    }
}

/// What a scan reports of a file that was read as a session: nothing for a session of another
/// directory.
pub fn scan_loaded(
    id: &str,
    path: &str,
    loaded: Result<LocalSession, SessionError>,
    cwd: Option<&str>,
) -> (r: Option<SessionScanEntry>)
    ensures
        match loaded {
            Ok(session) => if cwd is Some && session.cwd@ != cwd->0@ {
                r is None
            } else {
                r matches Some(SessionScanEntry::Session(s)) && *s == session
            },
            Err(error) => r is Some && reports_quarantined(
                r->0,
                id@,
                session_error_text(error@),
                path@,
            ),
        },
{
    match loaded {
        Ok(session) => {
            if let Some(dir) = cwd {
                if !same(session.cwd.as_str(), dir) {
                    return None;
                }
            }
            Some(SessionScanEntry::Session(Box::new(session)))
        },
        Err(error) => Some(
            SessionScanEntry::Quarantined {
                id: id.to_owned(),
                reason: error.message(),
                path: path.to_owned(),
            },
        ),
    }
}

/// Whether a file in the trash is one of a session, by its extension.
pub fn is_session_file(extension: Option<&str>) -> (r: bool)
    ensures
        r == (extension.deep_view() == Some("json"@)),
{
    match extension {
        Some(text) => same(text, "json"),
        None => false,
    }
}

// ---------------------------------------------------------------------------------------------
// Leases
// ---------------------------------------------------------------------------------------------

/// Who holds a session.
#[derive(Debug, Clone, PartialEq, Eq)]
pub struct SessionLeaseOwner {
    pub version: u8,
    pub session_id: String,
    pub surface: String,
    pub pid: u32,
    pub app_version: String,
    pub acquired_at: Timestamp,
}

/// Whether a session is held.
#[derive(Debug, Clone, PartialEq, Eq)]
pub enum SessionLeaseStatus {
    Available,
    Live(SessionLeaseOwner),
    Stale(SessionLeaseOwner),
}

/// What came of trying to lock the lock of a session.
#[derive(Debug, PartialEq, Eq)]
pub enum LockAttempt {
    Locked,
    Contended,
    Failed(String),
}

/// Whether a status is that of a session, by whether its file could be locked and whether an owner
/// was written down.
pub open spec fn seen_as(status: SessionLeaseStatus, attempt: LockAttempt, owned: bool) -> bool {
    match attempt {
        LockAttempt::Locked => if owned {
            status is Stale
        } else {
            status is Available
        },
        LockAttempt::Contended => status is Live,
        LockAttempt::Failed(_) => false,
    }
}

/// Whether a session is held, from its lock and from what the file of its owner holds.
pub fn lease_status(
    id: &str,
    attempt: LockAttempt,
    owner: Option<SessionLeaseOwner>,
    now: Timestamp,
) -> (r: Result<SessionLeaseStatus, SessionError>)
    ensures
        r matches Ok(status) ==> seen_as(status, attempt, owner is Some),
        match attempt {
            LockAttempt::Locked => match owner {
                Some(o) => r == Ok::<SessionLeaseStatus, SessionError>(
                    SessionLeaseStatus::Stale(o),
                ),
                None => r == Ok::<SessionLeaseStatus, SessionError>(SessionLeaseStatus::Available),
            },
            LockAttempt::Contended => match owner {
                Some(o) => r == Ok::<SessionLeaseStatus, SessionError>(SessionLeaseStatus::Live(o)),
                None => r matches Ok(SessionLeaseStatus::Live(o)) && {
                    &&& o.version == 1
                    &&& o.session_id@ == id@
                    &&& o.surface@ == "another client"@
                    &&& o.pid == 0
                    &&& o.app_version@ == "unknown"@
                    &&& o.acquired_at == now
                },
            },
            LockAttempt::Failed(message) => r matches Err(e) && e@ == SessionErrorView::Io(
                message@,
            ),
        },
{
    match attempt {
        LockAttempt::Locked => match owner {
            Some(owner) => Ok(SessionLeaseStatus::Stale(owner)),
            None => Ok(SessionLeaseStatus::Available),
        },
        LockAttempt::Contended => match owner {
            Some(owner) => Ok(SessionLeaseStatus::Live(owner)),
            None => Ok(
                SessionLeaseStatus::Live(
                    SessionLeaseOwner {
                        version: 1,
                        session_id: id.to_owned(),
                        surface: "another client".to_owned(),
                        pid: 0,
                        app_version: "unknown".to_owned(),
                        acquired_at: now,
                    },
                ),
            ),
        },
        LockAttempt::Failed(message) => Err(SessionError::Io(message)),
    }
}

/// Whether a session may be taken: not while it is held, and after an owner that went away only
/// where that is allowed.
pub open spec fn may_acquire(status: SessionLeaseStatus, allow_stale: bool) -> bool {
    match status {
        SessionLeaseStatus::Available => true,
        SessionLeaseStatus::Live(_) => false,
        SessionLeaseStatus::Stale(_) => allow_stale,
    }
}

/// Takes a session for a surface, where its status allows it.
pub fn acquire_lease(
    id: &str,
    status: &SessionLeaseStatus,
    allow_stale: bool,
    surface: &str,
    pid: u32,
    app_version: &str,
    now: Timestamp,
) -> (r: Result<SessionLeaseOwner, SessionError>)
    ensures
        match r {
            Ok(o) => {
                &&& may_acquire(*status, allow_stale)
                &&& o.version == 1
                &&& o.session_id@ == id@
                &&& o.surface@ == surface@
                &&& o.pid == pid
                &&& o.app_version@ == app_version@
                &&& o.acquired_at == now
            },
            Err(e) => !may_acquire(*status, allow_stale) && e@ == SessionErrorView::Io(
                "session writer lease is unavailable"@,
            ),
        },
{
    let free = match status {
        SessionLeaseStatus::Available => true,
        SessionLeaseStatus::Live(_) => false,
        SessionLeaseStatus::Stale(_) => allow_stale,
    };
    if !free {
        return Err(SessionError::Io("session writer lease is unavailable".to_owned()));
    }
    Ok(
        SessionLeaseOwner {
            version: 1,
            session_id: id.to_owned(),
            surface: surface.to_owned(),
            pid,
            app_version: app_version.to_owned(),
            acquired_at: now,
        },
    )
}

// ---------------------------------------------------------------------------------------------
// Laws
// ---------------------------------------------------------------------------------------------

/// Loading gives back what saving kept: the record of a session that was saved, which says its
/// version, is let through, and the session that is read from it is the one that was saved.
pub proof fn loading_gives_back_what_saving_kept(
    session: LocalSession,
    now: Timestamp,
    kept: LocalSession,
    text: String,
    loaded: LocalSession,
)
    requires
        valid_id(session.id@),
        is_saved(session, now, kept),
        json_of_text(text@) matches Ok(value) && version_in(value) == kept.version,
        is_loaded(kept.version as nat, kept, loaded),
    ensures
        load_gate(session.id@, FileRead::Text(text)) == Ok::<nat, SessionErrorView>(3),
        loaded == kept,
        loaded.version == 3,
        loaded.updated_at == now,
        loaded.activity@.len() <= 500,
        session.activity@.len() <= 500 ==> loaded.activity@ == session.activity@,
        loaded == (LocalSession {
            version: 3,
            updated_at: now,
            activity: loaded.activity,
            ..session
        }),
{
}

/// The file of a valid id stands in its directory: the id holds no separator and is not a way up, so
/// that the name of the file is put behind the directory and ends the path.
pub proof fn valid_ids_stay_in_their_directory(
    windows: bool,
    id: Seq<char>,
    dir: Seq<char>,
    path: Seq<char>,
)
    requires
        valid_id(id),
        join_on(windows, dir, id + ".json"@, path),
    ensures
        forall|i: int| 0 <= i < id.len() ==> id[i] != '/' && id[i] != '.' && id[i] != '\\',
        windows && begins_with(dir, "\\\\"@) || put_behind(windows, dir, id + ".json"@, path),
        ends_in_name(path, id + ".json"@) || windows && path == dir + (id + ".json"@),
{
    reveal_strlit(".json");
    reveal_strlit(".");
    reveal_strlit("..");
    let name = id + ".json"@;
    assert forall|i: int| 0 <= i < id.len() implies id[i] != '/' && id[i] != '.' && id[i] != '\\' by {
        assert(id_char(id[i]));
    }
    assert forall|i: int| 0 <= i < name.len() implies #[trigger] name[i] != '\\' && name[i] != ':'
        && name[i] != '/' by {
        if i < id.len() {
            assert(id_char(id[i]));
        }
    }
    portable_paths_are_cut_alike(windows, name);
    joined_paths_end_in_the_name(windows, dir, name, path);
}

proof fn credentials_are_secret(parts: Seq<PartView>)
    requires
        parts.contains(PartView::Name("credentials"@)),
    ensures
        holds_secret(parts),
{
    reveal_strlit("credentials");
    let i = choose|i: int| 0 <= i < parts.len() && parts[i] == PartView::Name("credentials"@);
    assert(ascii_lower("credentials"@) =~= "credentials"@);
    assert(secret_name(ascii_lower(part_text(parts[i]))));
}

/// The file of credentials is one that holds secrets, so that no tool may touch it: on the platform
/// where its path was put together its parts hold a secret, on Windows unless the path begins with
/// two separators, and those of a portable path do on any platform.
pub proof fn the_credentials_file_is_secret(
    home: Seq<char>,
    path: Seq<char>,
    parts: Seq<PartView>,
)
    requires
        reached(home, seq![".ronin"@, "credentials"@], path),
        taken_apart(path, parts),
    ensures
        portable(path) ==> holds_secret(parts),
        forall|windows: bool| #[trigger]
            parts_on(windows, path, parts) && reached_on(
                windows,
                home,
                seq![".ronin"@, "credentials"@],
                path,
            ) && (windows ==> !two_separators(path)) ==> holds_secret(parts),
{
    let way = seq![".ronin"@, "credentials"@];
    assert forall|windows: bool| #[trigger]
        parts_on(windows, path, parts) && reached_on(windows, home, way, path) && (windows
            ==> !two_separators(path)) implies holds_secret(parts) by {
        credentials_are_found(windows, home, path, parts);
        credentials_are_secret(parts);
    }
    if portable(path) {
        let windows = choose|windows: bool| #[trigger] reached_on(windows, home, way, path);
        let other = choose|other: bool| #[trigger] parts_on(other, path, parts);
        portable_paths_are_cut_alike(windows, path);
        portable_paths_are_cut_alike(other, path);
        assert(forall|i: int|
            0 <= i < pieces_on(windows, path).len() ==> pieces_on(windows, path)[i] == pieces_on(
                other,
                path,
            )[i]);
        assert(parts_on(windows, path, parts));
    }
}

proof fn credentials_are_found(
    windows: bool,
    home: Seq<char>,
    path: Seq<char>,
    parts: Seq<PartView>,
)
    requires
        reached_on(windows, home, seq![".ronin"@, "credentials"@], path),
        parts_on(windows, path, parts),
        windows ==> !two_separators(path),
    ensures
        parts.contains(PartView::Name("credentials"@)),
{
    reveal_strlit(".ronin");
    reveal_strlit("credentials");
    reveal_strlit(".");
    reveal_strlit("..");
    let way = seq![".ronin"@, "credentials"@];
    let dir = choose|dir: Seq<char>|
        reached_on(windows, home, way.drop_last(), dir) && #[trigger] join_on(
            windows,
            dir,
            way.last(),
            path,
        );
    assert(way.drop_last() =~= seq![".ronin"@]);
    let base = choose|base: Seq<char>|
        reached_on(windows, home, way.drop_last().drop_last(), base) && #[trigger] join_on(
            windows,
            base,
            way.drop_last().last(),
            dir,
        );
    joined_paths_end_in_the_name(windows, base, ".ronin"@, dir);
    assert(dir.last() == 'n') by {
        if ends_in_name(dir, ".ronin"@) {
            assert(dir.skip(dir.len() - 6)[5] == dir.last());
        }
    }
    joined_names_are_found(windows, dir, "credentials"@, path, parts);
}

proof fn list_places_are_listed(
    sessions: Seq<LocalSession>,
    order: Seq<int>,
    cwd: Option<Seq<char>>,
    all: bool,
    n: int,
)
    requires
        0 <= n <= order.len(),
    ensures
        forall|k: int|
            0 <= k < list_places(sessions, order, cwd, all, n).len() ==> {
                let i = #[trigger] list_places(sessions, order, cwd, all, n)[k];
                in_list(sessions[i], cwd, all) && exists|q: int|
                    0 <= q < n && #[trigger] order[q] == i
            },
        forall|q: int|
            0 <= q < n && in_list(sessions[#[trigger] order[q]], cwd, all) ==> list_places(
                sessions,
                order,
                cwd,
                all,
                n,
            ).contains(order[q]),
    decreases n,
{
    if n > 0 {
        list_places_are_listed(sessions, order, cwd, all, n - 1);
        let before = list_places(sessions, order, cwd, all, n - 1);
        let now = list_places(sessions, order, cwd, all, n);
        assert forall|k: int| 0 <= k < now.len() implies {
            let i = #[trigger] now[k];
            in_list(sessions[i], cwd, all) && exists|q: int| 0 <= q < n && #[trigger] order[q] == i
        } by {
            if k < before.len() {
                assert(now[k] == before[k]);
                let q = choose|q: int| 0 <= q < n - 1 && #[trigger] order[q] == before[k];
                assert(order[q] == now[k]);
            } else {
                assert(order[n - 1] == now[k]);
            }
        }
        assert forall|q: int|
            0 <= q < n && in_list(sessions[#[trigger] order[q]], cwd, all) implies now.contains(
            order[q],
        ) by {
            if q < n - 1 {
                assert(before.contains(order[q]));
                let k = choose|k: int| 0 <= k < before.len() && before[k] == order[q];
                assert(now[k] == order[q]);
            } else {
                assert(now[before.len() as int] == order[q]);
            }
        }
    }
}

/// A list holds only the sessions that belong in it.
pub proof fn lists_hold_what_belongs_in_them(
    sessions: Seq<LocalSession>,
    cwd: Option<Seq<char>>,
    all: bool,
    k: int,
)
    requires
        0 <= k < session_list(sessions, cwd, all).len(),
    ensures
        in_list(sessions[session_list(sessions, cwd, all)[k]], cwd, all),
{
    let t = times(sessions);
    newest_first_is_total(t);
    crate::order::ordered_is_sorted(sessions.len(), newest_first(t));
    list_places_are_listed(
        sessions,
        ordered(sessions.len(), newest_first(t)),
        cwd,
        all,
        sessions.len() as int,
    );
}

proof fn list_places_keep_the_order(
    sessions: Seq<LocalSession>,
    order: Seq<int>,
    cwd: Option<Seq<char>>,
    all: bool,
    n: int,
)
    requires
        0 <= n <= order.len(),
        sorted_by(order, newest_first(times(sessions))),
    ensures
        forall|j: int, k: int|
            #![trigger list_places(sessions, order, cwd, all, n)[j], list_places(
                sessions,
                order,
                cwd,
                all,
                n,
            )[k]]
            0 <= j < k < list_places(sessions, order, cwd, all, n).len() ==> newest_first(
                times(sessions),
            )(
                list_places(sessions, order, cwd, all, n)[j],
                list_places(sessions, order, cwd, all, n)[k],
            ),
    decreases n,
{
    if n > 0 {
        list_places_keep_the_order(sessions, order, cwd, all, n - 1);
        list_places_are_listed(sessions, order, cwd, all, n - 1);
        let leq = newest_first(times(sessions));
        let before = list_places(sessions, order, cwd, all, n - 1);
        let now = list_places(sessions, order, cwd, all, n);
        assert forall|j: int, k: int| 0 <= j < k < now.len() implies leq(
            #[trigger] now[j],
            #[trigger] now[k],
        ) by {
            if k < before.len() {
                assert(now[j] == before[j] && now[k] == before[k]);
            } else {
                assert(now[j] == before[j]);
                let q = choose|q: int| 0 <= q < n - 1 && #[trigger] order[q] == before[j];
                assert(leq(order[q], order[n - 1]));
            }
        }
    }
}

/// A list shows every session of its directory that is not archived, or all of them where all are
/// wanted, and the one that was written last comes first.
pub proof fn lists_show_the_newest_first(
    sessions: Seq<LocalSession>,
    cwd: Option<Seq<char>>,
    all: bool,
    i: int,
    j: int,
    k: int,
)
    ensures
        ({
            let list = session_list(sessions, cwd, all);
            &&& 0 <= i < sessions.len() && (cwd is Some ==> sessions[i].cwd@ == cwd->0) && (all
                || sessions[i].archived_at is None) ==> list.contains(i)
            &&& 0 <= k < list.len() ==> {
                let s = sessions[list[k]];
                0 <= list[k] < sessions.len() && (cwd is Some ==> s.cwd@ == cwd->0) && (all
                    || s.archived_at is None)
            }
            &&& 0 <= j < k < list.len() ==> {
                let a = sessions[list[j]].updated_at;
                let b = sessions[list[k]].updated_at;
                a.seconds > b.seconds || a.seconds == b.seconds && a.nanos >= b.nanos
            }
        }),
{
    let t = times(sessions);
    let n = sessions.len();
    let leq = newest_first(t);
    newest_first_is_total(t);
    crate::order::ordered_is_sorted(n, leq);
    let order = ordered(n, leq);
    list_places_are_listed(sessions, order, cwd, all, n as int);
    list_places_keep_the_order(sessions, order, cwd, all, n as int);
    let list = session_list(sessions, cwd, all);
    if 0 <= i < n {
        order.to_multiset_ensures();
        let every = crate::order::indices(n);
        every.to_multiset_ensures();
        assert(every[i] == i);
        assert(every.contains(i));
        assert(every.to_multiset().count(i) > 0);
        assert(order.to_multiset().count(i) > 0);
        assert(order.contains(i));
        let q = choose|q: int| 0 <= q < order.len() && order[q] == i;
        assert(order[q] == i);
    }
    if 0 <= k < list.len() {
        let at = list[k];
        let q = choose|q: int| 0 <= q < n && #[trigger] order[q] == at;
        assert(0 <= order[q] < n);
        if 0 <= j < k {
            assert(leq(list[j], list[k]));
            let other = list[j];
            let p = choose|p: int| 0 <= p < n && #[trigger] order[p] == other;
            assert(0 <= order[p] < n);
        }
    }
}

/// A fork has the conversation of its session and none of its account, under ids of its own, and
/// says what it is a fork of.
pub proof fn forks_keep_the_conversation(
    s: LocalSession,
    id: String,
    provider_session_id: String,
    now: Timestamp,
    r: LocalSession,
)
    requires
        is_fork(s, id, provider_session_id, now, r),
    ensures
        r.messages == s.messages && r.cwd == s.cwd && r.model == s.model && r.model_history
            == s.model_history,
        r.id == id && r.provider_session_id == provider_session_id,
        r.parent_session_id == Some(s.id),
        r.cost_micro == 0 && r.rounds == 0 && r.last_usage is None && r.stop_reason is None,
        r.created_at == now && r.updated_at == now && r.archived_at is None,
        r.state == SessionState::Active && r.pending_turn_base is None,
        r.activity@.len() == 0 && r.last_turn_changes@.len() == 0 && r.last_turn_commands@.len()
            == 0,
        s.title matches Some(title) ==> r.title.deep_view() == Some("Fork of "@ + title@),
        s.title is None ==> r.title.deep_view() == Some("Fork of "@ + "Untitled session"@),
{
}

/// Only the versions one to three are read, and a record that is no JSON is told of as corrupt; an
/// id that no session can have is refused before anything is read.
pub proof fn sessions_are_read_in_known_versions(id: Seq<char>, file: FileRead)
    ensures
        load_gate(id, file) matches Ok(version) ==> valid_id(id) && 1 <= version <= 3 && file is Text
            && (json_of_text(file->Text_0@) matches Ok(value) && unsigned_in(
            member(value, "version"@),
        ) == Some(version)),
        !valid_id(id) ==> load_gate(id, file) == Err::<nat, SessionErrorView>(
            SessionErrorView::Corrupt(id, "invalid id"@),
        ),
        valid_id(id) && file is NotFound ==> load_gate(id, file) == Err::<nat, SessionErrorView>(
            SessionErrorView::NotFound(id),
        ),
        valid_id(id) ==> (file matches FileRead::Text(raw) ==> (json_of_text(raw@) matches Ok(value)
            ==> (unsigned_in(member(value, "version"@)) matches Some(n) ==> {
            &&& 1 <= n <= 3 ==> load_gate(id, file) == Ok::<nat, SessionErrorView>(n)
            &&& !(1 <= n <= 3) ==> load_gate(id, file) == Err::<nat, SessionErrorView>(
                SessionErrorView::Version(id, n),
            )
        }))),
{
}

/// Bringing a session to the present version keeps what was said in it and its account.
pub proof fn migration_keeps_the_session(version: nat, o: LocalSession, f: LocalSession)
    requires
        is_loaded(version, o, f),
    ensures
        f.id == o.id && f.cwd == o.cwd && f.model == o.model && f.messages == o.messages,
        f.cost_micro == o.cost_micro && f.rounds == o.rounds && f.title == o.title,
        f.created_at == o.created_at && f.updated_at == o.updated_at && f.archived_at
            == o.archived_at,
        f.activity == o.activity && f.last_turn_changes == o.last_turn_changes,
        f.parent_session_id == o.parent_session_id && f.state == o.state && f.stop_reason
            == o.stop_reason,
        o.model_history@.len() > 0 ==> f.model_history == o.model_history,
        version <= 2 ==> f.version == 3 && f.compaction_count == 0 && f.model_history@.len() > 0,
        version > 2 ==> f == o,
{
    if version <= 2 && o.model_history@.len() == 0 {
        assert(texts(f.model_history@).len() == 1);
    }
}

/// Saving keeps all of a session but the oldest entries over five hundred of what happened in it.
pub proof fn saving_keeps_the_session(o: LocalSession, now: Timestamp, f: LocalSession)
    requires
        is_saved(o, now, f),
    ensures
        f.id == o.id && f.cwd == o.cwd && f.model == o.model && f.messages == o.messages,
        f.cost_micro == o.cost_micro && f.rounds == o.rounds && f.title == o.title,
        f.created_at == o.created_at && f.updated_at == now && f.version == 3,
        f.activity@.is_prefix_of(o.activity@),
        f.activity@.len() == 500 || f.activity@ == o.activity@,
{
}

/// The service is told of a session neither its title nor what was said in it: what it is told is
/// the same for any other conversation.
pub proof fn the_service_is_not_told_what_was_said(
    m: AgentSessionMetadata,
    s: LocalSession,
    name: Option<Seq<char>>,
    source: Seq<char>,
    messages: Vec<AgentMessage>,
    title: Option<String>,
    cwd: String,
)
    requires
        describes(m, s, name, source),
    ensures
        describes(m, LocalSession { messages, title, cwd, ..s }, name, source),
        m.title is None && m.summary is None,
        m.session_id == s.id && m.cost_micro == s.cost_micro && m.rounds == s.rounds,
        m.parent_session_id == s.parent_session_id,
        m.started_at@ == time_text(s.created_at) && m.updated_at@ == time_text(s.updated_at),
        m.archived_at is Some <==> s.archived_at is Some,
        s.archived_at is Some ==> m.archived_at->0@ == time_text(s.archived_at->0),
        m.workspace_name.deep_view() == name && m.source@ == source,
        s.model_history@.len() > 0 ==> texts(m.models@) == texts(s.model_history@),
        s.model_history@.len() == 0 ==> texts(m.models@) == seq![s.model@],
        s.state == SessionState::Active ==> m.state@ == "active"@,
        s.state == SessionState::Completed ==> m.state@ == "completed"@,
        s.state == SessionState::Interrupted ==> m.state@ == "interrupted"@,
{
}

/// A session that someone holds cannot be taken, a free one can, and one whose holder went away only
/// where that is allowed.
pub proof fn held_sessions_cannot_be_taken(status: SessionLeaseStatus, allow_stale: bool)
    ensures
        status is Live ==> !may_acquire(status, allow_stale),
        status is Available ==> may_acquire(status, allow_stale),
        status is Stale ==> may_acquire(status, allow_stale) == allow_stale,
{
}

/// The payload of a token is what stands between its first two dots, decoded and read as JSON.
pub proof fn payloads_stand_between_dots(
    head: Seq<char>,
    payload: Seq<char>,
    tail: Seq<char>,
    token: Seq<char>,
)
    requires
        forall|i: int| 0 <= i < head.len() ==> #[trigger] head[i] != '.',
        forall|i: int| 0 <= i < payload.len() ==> #[trigger] payload[i] != '.',
        token == head + seq!['.'] + payload || token == head + seq!['.'] + payload + seq!['.']
            + tail,
    ensures
        token_payload(token) == match base64_decoded(payload) {
            Some(bytes) => json_of_bytes(bytes),
            None => None,
        },
{
    let n = head.len() as int;
    crate::text::index_of_char_is_first(token, '.');
    assert(token[n] == '.');
    assert forall|i: int| 0 <= i < n implies token[i] != '.' by {
        assert(token[i] == head[i]);
    }
    assert(crate::text::index_of_char(token, '.') == n);
    let rest = token.skip(n + 1);
    crate::text::index_of_char_is_first(rest, '.');
    let m = payload.len() as int;
    assert forall|i: int| 0 <= i < m implies rest[i] != '.' by {
        assert(rest[i] == payload[i]);
    }
    if token == head + seq!['.'] + payload {
        assert(rest =~= payload);
        assert(split_on(rest, '.') =~= seq![payload]);
    } else {
        assert(rest =~= payload + seq!['.'] + tail);
        assert(rest[m] == '.');
        assert(crate::text::index_of_char(rest, '.') == m);
        assert(rest.take(m) =~= payload);
        assert(split_on(rest, '.')[0] == payload);
    }
    assert(split_on(token, '.')[1] == split_on(rest, '.')[0]);
}

/// An address without the slashes at its end is the start of it, what is left out are slashes, and
/// it does not end in one.
pub proof fn slashes_at_the_end_are_left_out(s: Seq<char>)
    ensures
        without_slashes(s).is_prefix_of(s),
        without_slashes(s).len() > 0 ==> without_slashes(s).last() != '/',
        forall|i: int| without_slashes(s).len() <= i < s.len() ==> #[trigger] s[i] == '/',
    decreases s.len(),
{
    if s.len() > 0 && s.last() == '/' {
        let before = s.drop_last();
        slashes_at_the_end_are_left_out(before);
        assert forall|i: int| without_slashes(s).len() <= i < s.len() implies #[trigger] s[i]
            == '/' by {
            if i < before.len() {
                assert(before[i] == s[i]);
            }
        }
    }
}

/// A session that another client writes is seen as live, whoever holds it, so that it cannot be
/// taken; one that nobody writes is free, or left behind by its last owner.
pub proof fn sessions_in_use_are_live(
    attempt: LockAttempt,
    owned: bool,
    status: SessionLeaseStatus,
    allow_stale: bool,
)
    requires
        seen_as(status, attempt, owned),
    ensures
        attempt is Contended ==> status is Live && !may_acquire(status, allow_stale),
        attempt is Locked && !owned ==> status is Available && may_acquire(status, allow_stale),
        attempt is Locked && owned ==> status is Stale && may_acquire(status, allow_stale)
            == allow_stale,
{
}

/// The account in the vault is the same whether or not the address of the service ends in slashes.
pub proof fn slashes_do_not_make_another_account(api_url: Seq<char>)
    ensures
        vault_account(api_url.push('/')) == vault_account(api_url),
        vault_account(without_slashes(api_url)) == vault_account(api_url),
        begins_with(vault_account(api_url), "api-"@),
{
    assert(api_url.push('/').drop_last() =~= api_url);
    slashes_at_the_end_are_left_out(api_url);
    let head = "api-"@;
    assert(vault_account(api_url).subrange(0, head.len() as int) =~= head);
}

/// A file that is no session is set aside under its id and the time, so that one set aside later
/// gets another name.
pub proof fn files_set_aside_keep_apart(id: Seq<char>, now: nat, later: nat)
    requires
        now != later,
    ensures
        begins_with(quarantine_name(id, now as int), id),
        finishes_with(quarantine_name(id, now as int), ".json"@),
        quarantine_name(id, now as int) != quarantine_name(id, later as int),
{
    let a = quarantine_name(id, now as int);
    let b = quarantine_name(id, later as int);
    let end = ".json"@;
    assert(a.subrange(0, id.len() as int) =~= id);
    assert(a.subrange(a.len() - end.len(), a.len() as int) =~= end);
    let n = (id + "-"@).len() as int;
    decimals_read_as_their_number(now);
    decimals_read_as_their_number(later);
    assert(a.subrange(n, a.len() - end.len()) =~= decimal(now));
    assert(b.subrange(n, b.len() - end.len()) =~= decimal(later));
}

/// Errors name the session that they are about, and say what is wrong with it.
pub proof fn errors_name_their_session(id: Seq<char>, reason: Seq<char>, version: nat)
    ensures
        has_text(session_error_text(SessionErrorView::NotFound(id)), id),
        has_text(session_error_text(SessionErrorView::Corrupt(id, reason)), id),
        finishes_with(session_error_text(SessionErrorView::Corrupt(id, reason)), reason),
        has_text(session_error_text(SessionErrorView::Version(id, version)), id),
        has_text(session_error_text(SessionErrorView::Version(id, version)), decimal(version)),
        session_error_text(SessionErrorView::Io(reason)) == reason,
{
    let n = "Session "@.len() as int;
    let a = session_error_text(SessionErrorView::NotFound(id));
    let b = session_error_text(SessionErrorView::Corrupt(id, reason));
    let c = session_error_text(SessionErrorView::Version(id, version));
    assert(a.subrange(n, n + id.len()) =~= id);
    assert(b.subrange(n, n + id.len()) =~= id);
    assert(c.subrange(n, n + id.len()) =~= id);
    assert(occurs_at(a, id, n) && occurs_at(b, id, n) && occurs_at(c, id, n));
    assert(b.subrange(b.len() - reason.len(), b.len() as int) =~= reason);
    let k = ("Session "@ + id + " uses unsupported schema version "@).len() as int;
    assert(c.subrange(k, k + decimal(version).len()) =~= decimal(version));
    assert(occurs_at(c, decimal(version), k));
}

} // verus!
