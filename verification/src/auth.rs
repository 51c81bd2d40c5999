//! Signing in: what a device is told, when tokens are renewed, and what is kept of them.
use crate::client::{add_header, identity_headers, ApiError, ClientIdentity, Headers};
use crate::json::{json_of_bytes, member, parse_json_bytes, text_in, Json, JsonView, ObjectBuilder};
use crate::storage::{access_token_expiry, expiry_in, token_payload, Credentials};
use crate::text::{cat2, join, joined, same, texts};
use vstd::prelude::*;

verus! {

/// What the service gives a device that wants to sign in.
#[derive(Debug, Clone, PartialEq, Eq)]
pub struct Device {
    pub device_code: String,
    pub user_code: String,
    pub verification_uri: String,
    pub verification_uri_complete: Option<String>,
    pub expires_in: u64,
    pub interval: Option<u64>,
}

/// What the user is told of a device that wants to sign in: not the code of the device.
#[derive(Debug, Clone, PartialEq, Eq)]
pub struct DeviceAuthorizationInfo {
    pub verification_uri: String,
    pub verification_uri_complete: Option<String>,
    pub user_code: String,
    pub expires_in: u64,
    pub interval: u64,
}

/// What a device is doing while it waits.
#[derive(Debug, Clone, Copy, PartialEq, Eq, Structural)]
pub enum DeviceAuthorizationState {
    Polling,
    SlowDown,
}

/// The seconds between two questions of a device that were agreed on first.
pub open spec fn first_interval(device: Device) -> u64 {
    match device.interval {
        Some(n) => n,
        None => 5,
    }
}

impl Device {
    /// What the user is told.
    pub fn info(&self) -> (r: DeviceAuthorizationInfo)
        ensures
            r.verification_uri == self.verification_uri,
            r.verification_uri_complete.deep_view() == self.verification_uri_complete.deep_view(),
            r.user_code == self.user_code,
            r.expires_in == self.expires_in,
            r.interval == first_interval(*self),
    {
        DeviceAuthorizationInfo {
            verification_uri: self.verification_uri.clone(),
            verification_uri_complete: match &self.verification_uri_complete {
                Some(uri) => Some(uri.clone()),
                None => None,
            },
            user_code: self.user_code.clone(),
            expires_in: self.expires_in,
            interval: match self.interval {
                Some(n) => n,
                None => 5,
            },
        }
    }
}

/// Whether a device asks again after an answer of a code.
pub open spec fn asks_again(code: Seq<char>) -> bool {
    code == "authorization_pending"@ || code == "slow_down"@
}

/// The seconds between two questions after an answer of a code.
pub open spec fn next_interval(interval: nat, code: Seq<char>) -> nat {
    if code == "slow_down"@ {
        interval + 5
    } else {
        interval
    }
}

/// A device that asks again and again whether the user has let it in.
#[derive(Debug, Clone, Copy, PartialEq, Eq, Structural)]
pub struct DevicePoll {
    /// The seconds to wait before the next question.
    pub interval: u64,
}

/// What a device does after an answer that did not let it in.
#[derive(Debug, PartialEq, Eq)]
pub enum PollStep {
    /// It asks again.
    Again,
    /// It asks again after a longer time.
    SlowDown,
    /// It gives up.
    Fail(ApiError),
}

impl DevicePoll {
    /// A device that has not asked yet.
    pub fn new(device: &Device) -> (r: Self)
        ensures
            r.interval == first_interval(*device),
    {
        DevicePoll {
            interval: match device.interval {
                Some(n) => n,
                None => 5,
            },
        }
    }

    /// Whether a device may ask, after it has waited: not once the user cancelled, nor after the
    /// time for it is over.
    pub fn may_ask(&self, cancelled: bool, over: bool) -> (r: Result<(), ApiError>)
        ensures
            match r {
                Ok(_) => !cancelled && !over,
                Err(e) => if cancelled {
                    e.status == 0 && e.code@ == "aborted"@ && e.message@ == "Login cancelled"@
                } else {
                    over && e.status == 400 && e.code@ == "expired_token"@ && e.message@
                        == "The device authorization expired"@
                },
            },
    {
        if cancelled {
            return Err(ApiError::new(0, "aborted", "Login cancelled".to_owned()));
        }
        if over {
            return Err(
                ApiError::new(
                    400,
                    "expired_token",
                    "The device authorization expired".to_owned(),
                ),
            );
        }
        Ok(())
    }

    /// Takes an answer that did not let the device in.
    pub fn refused(&mut self, error: ApiError) -> (r: PollStep)
        requires
            old(self).interval <= u64::MAX - 5,
        ensures
            final(self).interval == next_interval(old(self).interval as nat, error.code@),
            if asks_again(error.code@) {
                if error.code@ == "slow_down"@ {
                    r is SlowDown
                } else {
                    r is Again
                }
            } else {
                r == PollStep::Fail(error)
            },
    {
        proof {
            reveal_strlit("authorization_pending");
            reveal_strlit("slow_down");
            assert("authorization_pending"@.len() != "slow_down"@.len());
        }
        if same(error.code.as_str(), "authorization_pending") {
            PollStep::Again
        } else if same(error.code.as_str(), "slow_down") {
            self.interval = self.interval + 5;
            PollStep::SlowDown
        } else {
            PollStep::Fail(error)
        }
    }
}

/// Who signed in.
#[derive(Debug, PartialEq, Eq)]
pub struct User {
    pub email: String,
    pub first_name: Option<String>,
    pub last_name: Option<String>,
    pub profile_picture_url: Option<String>,
}

/// The tokens of an account.
#[derive(Debug, PartialEq, Eq)]
pub struct TokenResponse {
    pub access_token: String,
    pub refresh_token: String,
    pub user: User,
}

/// What is kept of the tokens of an account.
pub fn credentials(tokens: &TokenResponse) -> (r: Credentials)
    ensures
        r.access_token == Some(tokens.access_token),
        r.refresh_token == Some(tokens.refresh_token),
        r.dev_user_id is None,
        match r.expires_at {
            Some(t) => expiry_in(token_payload(tokens.access_token@)) == Some(t as int),
            None => expiry_in(token_payload(tokens.access_token@)) is None,
        },
{
    Credentials {
        access_token: Some(tokens.access_token.clone()),
        refresh_token: Some(tokens.refresh_token.clone()),
        expires_at: access_token_expiry(tokens.access_token.as_str()),
        dev_user_id: None,
    }
}

/// The headers that credentials make.
pub open spec fn credential_headers(c: Credentials) -> Seq<(Seq<char>, Seq<char>)> {
    match c.access_token {
        Some(token) => seq![("authorization"@, "Bearer "@ + token@)],
        None => match c.dev_user_id {
            Some(id) => seq![("x-user-id"@, id@)],
            None => Seq::empty(),
        },
    }
}

/// The headers that credentials make.
pub fn auth_headers(c: &Credentials) -> (r: Headers)
    ensures
        r.deep_view() == credential_headers(*c),
{
    let mut headers: Headers = Vec::new();
    assert(headers.deep_view() =~= Seq::empty());
    if let Some(token) = &c.access_token {
        add_header(&mut headers, "authorization", cat2("Bearer ", token.as_str()).as_str());
    } else if let Some(id) = &c.dev_user_id {
        add_header(&mut headers, "x-user-id", id.as_str());
    }
    assert(headers.deep_view() =~= credential_headers(*c));
    headers
}

/// The error of credentials that could not be kept.
pub fn io_error(message: String) -> (r: ApiError)
    ensures
        r.status == 0,
        r.code@ == "credentials_io"@,
        r.message == message,
{
    ApiError::new(0, "credentials_io", message)
}

/// When an access token expires: by what was kept, and where nothing was by the token itself.
pub open spec fn token_expiry(c: Credentials) -> Option<int> {
    match c.expires_at {
        Some(t) => Some(t as int),
        None => match c.access_token {
            Some(token) => expiry_in(token_payload(token@)),
            None => None,
        },
    }
}

/// Whether an access token expires within a minute of a time, or has expired.
pub open spec fn expiring(expiry: Option<int>, now: int) -> bool {
    expiry is Some && expiry->0 <= now + 60
}

/// Whether a time lies within a minute of another, or before it.
pub fn is_expiring(expiry: Option<i64>, now: i64) -> (r: bool)
    ensures
        r == expiring(
            match expiry {
                Some(t) => Some(t as int),
                None => None,
            },
            now as int,
        ),
{
    match expiry {
        Some(t) => (t as i128) <= (now as i128) + 60,
        None => false,
    }
}

/// Whether an access token expires within a minute of a time, or has expired.
pub fn token_is_expiring(c: &Credentials, now: i64) -> (r: bool)
    ensures
        r == expiring(token_expiry(*c), now as int),
{
    let expiry = match c.expires_at {
        Some(t) => Some(t),
        None => match &c.access_token {
            Some(token) => access_token_expiry(token.as_str()),
            None => None,
        },
    };
    is_expiring(expiry, now)
}

/// Whether tokens are to be renewed.
pub open spec fn renewal_due(c: Credentials, now: int) -> bool {
    c.access_token is Some && c.refresh_token is Some && expiring(token_expiry(c), now)
}

/// Whether tokens are to be renewed: where there is one to renew them with, and the access token
/// expires within a minute.
pub fn needs_refresh(c: &Credentials, now: i64) -> (r: bool)
    ensures
        r == renewal_due(*c, now as int),
{
    c.access_token.is_some() && c.refresh_token.is_some() && token_is_expiring(c, now)
}

/// A text of the body of an answer, or another where there is none.
pub open spec fn body_text(body: JsonView, key: Seq<char>, other: Seq<char>) -> Seq<char> {
    match text_in(member(body, key)) {
        Some(s) => s,
        None => other,
    }
}

fn text_of_body(body: &Json, key: &str, other: &str) -> (r: String)
    ensures
        r@ == body_text(body@, key@, other@),
{
    if let Some(value) = body.get(key) {
        if let Some(s) = value.as_str() {
            return s.to_owned();
        }
    }
    other.to_owned()
}

/// The error that an answer to signing in tells, from the JSON of its body.
pub fn auth_error_of(status: u16, body: &Json) -> (r: ApiError)
    ensures
        r.status == status,
        r.code@ == body_text(body@, "code"@, "auth_error"@),
        r.message@ == body_text(body@, "message"@, "Authentication failed"@),
{
    ApiError {
        status,
        code: text_of_body(body, "code", "auth_error"),
        message: text_of_body(body, "message", "Authentication failed"),
    }
}

/// The error that an answer to signing in tells.
pub fn auth_error(status: u16, body: &[u8]) -> (r: ApiError)
    ensures
        ({
            let value = match json_of_bytes(body@) {
                Some(value) => value,
                None => JsonView::Null,
            };
            &&& r.status == status
            &&& r.code@ == body_text(value, "code"@, "auth_error"@)
            &&& r.message@ == body_text(value, "message"@, "Authentication failed"@)
        }),
{
    match parse_json_bytes(body) {
        Some(value) => auth_error_of(status, &value),
        None => auth_error_of(status, &Json::Null),
    }
}

/// The headers of the request that opens a session for a new account.
pub fn session_headers(tokens: &TokenResponse, identity: &ClientIdentity) -> (r: Headers)
    ensures
        r.deep_view() == seq![("authorization"@, "Bearer "@ + tokens.access_token@)]
            + identity_headers(*identity),
{
    let mut headers: Headers = Vec::new();
    assert(headers.deep_view() =~= Seq::empty());
    add_header(
        &mut headers,
        "authorization",
        cat2("Bearer ", tokens.access_token.as_str()).as_str(),
    );
    let more = identity.headers();
    let ghost first = headers.deep_view();
    let ghost all = more.deep_view();
    let mut i: usize = 0;
    assert(first + all.take(0) =~= first);
    while i < more.len()
        invariant
            i <= more@.len(),
            all == more.deep_view(),
            headers.deep_view() == first + all.take(i as int),
        decreases more.len() - i,
    {
        assert(all[i as int] == (more@[i as int].0@, more@[i as int].1@));
        add_header(&mut headers, more[i].0.as_str(), more[i].1.as_str());
        assert(headers.deep_view() =~= first + all.take(i + 1));
        i += 1;
    }
    assert(all.take(i as int) =~= all);
    assert(first =~= seq![("authorization"@, "Bearer "@ + tokens.access_token@)]);
    headers
}

/// The names of a user that are given.
pub open spec fn given_names(user: User) -> Seq<Seq<char>> {
    let first = match user.first_name {
        Some(name) => seq![name@],
        None => Seq::empty(),
    };
    match user.last_name {
        Some(name) => first.push(name@),
        None => first,
    }
}

/// A text as JSON, `null` where there is none.
pub open spec fn text_or_null(text: Option<Seq<char>>) -> JsonView {
    match text {
        Some(s) => JsonView::Text(s),
        None => JsonView::Null,
    }
}

/// What the service is told of a user who signed in.
pub open spec fn user_json(user: User) -> JsonView {
    let name = joined(given_names(user), " "@);
    JsonView::Object(
        Map::empty().insert("email"@, JsonView::Text(user.email@)).insert(
            "name"@,
            if name.len() == 0 {
                JsonView::Null
            } else {
                JsonView::Text(name)
            },
        ).insert("avatarUrl"@, text_or_null(user.profile_picture_url.deep_view())),
    )
}

/// What the service is told of a user who signed in.
pub fn session_body(user: &User) -> (r: Json)
    ensures
        r@ == user_json(*user),
{
    let mut names: Vec<String> = Vec::new();
    if let Some(name) = &user.first_name {
        names.push(name.clone());
    }
    if let Some(name) = &user.last_name {
        names.push(name.clone());
    }
    assert(texts(names@) =~= given_names(*user));
    let name = join(&names, " ");
    let mut body = ObjectBuilder::new();
    body.put_text("email", user.email.as_str());
    if name.as_str().is_empty() {
        body.put("name", Json::Null);
    } else {
        body.put("name", Json::Text(name));
    }
    match &user.profile_picture_url {
        Some(url) => body.put("avatarUrl", Json::Text(url.clone())),
        None => body.put("avatarUrl", Json::Null),
    }
    body.finish()
}

/// A token that has expired is always renewed.
pub proof fn expired_tokens_are_renewed(expiry: int, now: int)
    requires
        expiry <= now,
    ensures
        expiring(Some(expiry), now),
{
}

/// A token counts as expiring from a minute before its time on; one without a time never does.
pub proof fn tokens_expire_a_minute_early(expiry: int, now: int)
    ensures
        expiring(Some(expiry), now) <==> now >= expiry - 60,
        !expiring(None, now),
{
}

/// The time that was kept with a token counts before the one that the token says.
pub proof fn kept_times_count_first(c: Credentials)
    ensures
        c.expires_at matches Some(t) ==> token_expiry(c) == Some(t as int),
        c.expires_at is None ==> (c.access_token matches Some(token) ==> token_expiry(c)
            == expiry_in(token_payload(token@))),
        c.expires_at is None && c.access_token is None ==> token_expiry(c) is None,
{
}

/// A request is let in by the token where there is one, else by the developer, else by nothing; and
/// never by both.
pub proof fn tokens_let_requests_in(c: Credentials)
    ensures
        c.access_token matches Some(token) ==> credential_headers(c) == seq![
            ("authorization"@, "Bearer "@ + token@),
        ],
        c.access_token is None ==> (c.dev_user_id matches Some(id) ==> credential_headers(c) == seq![
            ("x-user-id"@, id@),
        ]),
        c.access_token is None && c.dev_user_id is None ==> credential_headers(c).len() == 0,
{
}

/// The name of a user is the first name and then the last, as far as they are given.
pub proof fn users_are_told_by_their_names(user: User)
    ensures
        user.first_name matches Some(first) ==> (user.last_name matches Some(last) ==> joined(
            given_names(user),
            " "@,
        ) == first@ + " "@ + last@),
        user.first_name matches Some(first) ==> (user.last_name is None ==> joined(
            given_names(user),
            " "@,
        ) == first@),
        user.first_name is None ==> (user.last_name matches Some(last) ==> joined(
            given_names(user),
            " "@,
        ) == last@),
        user_json(user) is Object && user_json(user)->Object_0.contains_key("email"@),
{
    reveal_strlit("email");
    reveal_strlit("name");
    reveal_strlit("avatarUrl");
    reveal_with_fuel(joined, 3);
    let all = given_names(user);
    if all.len() == 2 {
        assert(all.drop_last() =~= seq![all[0]]);
        assert(joined(all.drop_last(), " "@) == all[0]);
    }
}

/// The seconds between two questions after some answers that did not let the device in, told by
/// their codes.
pub open spec fn interval_after(first: nat, codes: Seq<Seq<char>>) -> nat
    decreases codes.len(),
{
    if codes.len() == 0 {
        first
    } else {
        next_interval(interval_after(first, codes.drop_last()), codes.last())
    }
}

/// A device waits five seconds longer for each time that it was told to slow down, whatever else it
/// was told, and never less than was agreed on first.
pub proof fn devices_slow_down_when_told(first: nat, codes: Seq<Seq<char>>)
    ensures
        interval_after(first, codes) == first + 5 * codes.filter(
            |code: Seq<char>| code == "slow_down"@,
        ).len(),
        interval_after(first, codes) >= first,
    decreases codes.len(),
{
    reveal(Seq::filter);
    if codes.len() > 0 {
        devices_slow_down_when_told(first, codes.drop_last());
    }
}

/// A device asks again only where the user has not answered yet.
pub proof fn devices_ask_until_answered(code: Seq<char>)
    ensures
        asks_again(code) <==> code == "authorization_pending"@ || code == "slow_down"@,
{
}

/// Tokens are renewed only where there is one to renew them with, and from a minute before the
/// access token expires on.
pub proof fn tokens_are_renewed_in_time(c: Credentials, now: int)
    ensures
        renewal_due(c, now) ==> c.refresh_token is Some && c.access_token is Some,
        c.refresh_token is Some && c.access_token is Some && c.expires_at is Some ==> (renewal_due(
            c,
            now,
        ) <==> now >= c.expires_at->0 - 60),
{
}

/// A device waits as long as the service says, and five seconds where it says nothing.
pub proof fn devices_wait_as_agreed(device: Device)
    ensures
        device.interval matches Some(n) ==> first_interval(device) == n,
        device.interval is None ==> first_interval(device) == 5,
{
}

/// An error of signing in is told by what the service says of it, as far as it says anything.
pub proof fn errors_are_told_as_the_service_tells_them(
    members: Map<Seq<char>, JsonView>,
    key: Seq<char>,
    text: Seq<char>,
    other: Seq<char>,
)
    ensures
        body_text(JsonView::Object(members.insert(key, JsonView::Text(text))), key, other) == text,
        !members.contains_key(key) ==> body_text(JsonView::Object(members), key, other) == other,
{
}

} // verus!
