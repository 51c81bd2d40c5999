//! The service: who asks, what it answers, and how it is signed in to.
use ronin::auth::{
    auth_error, auth_error_of, auth_headers, credentials, io_error, is_expiring, needs_refresh,
    session_body, session_headers, token_is_expiring, Device, DevicePoll, PollStep, TokenResponse,
    User,
};
use ronin::client::{
    add_header, base_url, invalid_response, is_terminal, loop_error, network_error, response_error,
    session_path, sessions_path, stop_path, stream_disconnected, ApiError, ClientIdentity,
    ErrorBody, GenerationStream, HeaderProvider, SseDecoder, StaticHeaders,
};
use ronin::json::{parse_json, show_value, Json};
use ronin::storage::Credentials;
use ronin::types::{FinishReason, GenerationStreamEvent};

fn value<'a>(headers: &'a [(String, String)], name: &str) -> Option<&'a str> {
    headers.iter().rev().find(|(key, _)| key == name).map(|(_, value)| value.as_str())
}

#[test]
fn device_login_begin_returns_structured_progress() {
    let device = Device {
        device_code: "private-device-code".to_string(),
        user_code: "RONIN-42".to_string(),
        verification_uri: "https://api.workos.com/device".to_string(),
        verification_uri_complete: Some("https://api.workos.com/device?code=RONIN-42".to_string()),
        expires_in: 600,
        interval: Some(3),
    };
    let info = device.info();
    assert_eq!(info.user_code, "RONIN-42");
    assert_eq!(info.interval, 3);
    assert!(!format!("{info:?}").contains("private-device-code"));
}

fn device(interval: Option<u64>) -> Device {
    Device {
        device_code: "d".to_string(),
        user_code: "u".to_string(),
        verification_uri: "v".to_string(),
        verification_uri_complete: None,
        expires_in: 600,
        interval,
    }
}

#[test]
fn polling_slows_down_when_told() {
    let mut poll = DevicePoll::new(&device(None));
    assert_eq!(poll.interval, 5);
    assert!(poll.may_ask(false, false).is_ok());
    assert_eq!(poll.may_ask(true, true).unwrap_err().code, "aborted");
    assert_eq!(poll.may_ask(false, true).unwrap_err().code, "expired_token");
    let error = |code: &str| ApiError::new(400, code, "m".to_string());
    assert_eq!(poll.refused(error("authorization_pending")), PollStep::Again);
    assert_eq!(poll.interval, 5);
    assert_eq!(poll.refused(error("slow_down")), PollStep::SlowDown);
    assert_eq!(poll.interval, 10);
    assert_eq!(poll.refused(error("denied")), PollStep::Fail(error("denied")));
    assert_eq!(DevicePoll::new(&device(Some(7))).interval, 7);
}

fn tokens(first: Option<&str>, last: Option<&str>) -> TokenResponse {
    TokenResponse {
        // {"exp":1700000000}
        access_token: "h.eyJleHAiOjE3MDAwMDAwMDB9.s".to_string(),
        refresh_token: "r".to_string(),
        user: User {
            email: "me@example.com".to_string(),
            first_name: first.map(str::to_string),
            last_name: last.map(str::to_string),
            profile_picture_url: None,
        },
    }
}

#[test]
fn tokens_become_credentials() {
    let kept = credentials(&tokens(None, None));
    assert_eq!(kept.expires_at, Some(1_700_000_000));
    assert_eq!(kept.refresh_token.as_deref(), Some("r"));
    assert_eq!(kept.dev_user_id, None);
    assert!(needs_refresh(&kept, 1_700_000_000));
    assert!(needs_refresh(&kept, 1_699_999_940));
    assert!(!needs_refresh(&kept, 1_699_999_939));
    assert!(token_is_expiring(&kept, 1_700_000_000));
    let no_refresh = Credentials { refresh_token: None, ..kept };
    assert!(!needs_refresh(&no_refresh, 1_800_000_000));
    assert!(!is_expiring(None, 5));
    assert!(is_expiring(Some(65), 5));
    assert!(!is_expiring(Some(66), 5));
}

#[test]
fn credentials_become_headers() {
    let kept = credentials(&tokens(None, None));
    let headers = auth_headers(&kept);
    assert_eq!(
        value(&headers, "authorization"),
        Some("Bearer h.eyJleHAiOjE3MDAwMDAwMDB9.s")
    );
    let local = Credentials { dev_user_id: Some("me".to_string()), ..Credentials::default() };
    let headers = auth_headers(&local);
    assert_eq!(value(&headers, "x-user-id"), Some("me"));
    assert_eq!(value(&headers, "authorization"), None);
    assert!(auth_headers(&Credentials::default()).is_empty());
}

#[test]
fn sessions_are_opened_with_a_name() {
    let body = session_body(&tokens(Some("Ada"), Some("L")).user);
    assert_eq!(body.get("name").unwrap().as_str(), Some("Ada L"));
    assert_eq!(body.get("email").unwrap().as_str(), Some("me@example.com"));
    assert_eq!(body.get("avatarUrl"), Some(&Json::Null));
    assert_eq!(session_body(&tokens(None, None).user).get("name"), Some(&Json::Null));
    let identity = ClientIdentity::desktop("1", "linux", "x86_64");
    let headers = session_headers(&tokens(None, None), &identity);
    assert!(value(&headers, "authorization").unwrap().starts_with("Bearer "));
    assert_eq!(value(&headers, "x-ronin-client-surface"), Some("desktop"));
}

#[test]
fn refusals_are_read() {
    let error = auth_error(401, b"{\"code\":\"c\",\"message\":\"m\"}");
    assert_eq!(error, ApiError::new(401, "c", "m".to_string()));
    let error = auth_error(500, b"nothing");
    assert_eq!(error, ApiError::new(500, "auth_error", "Authentication failed".to_string()));
    let empty = parse_json("{}").unwrap();
    assert_eq!(auth_error_of(400, &empty).code, "auth_error");
    assert_eq!(io_error("disk".to_string()).code, "credentials_io");
    assert_eq!(io_error("disk".to_string()).text(), "API error (credentials_io): disk");
}

#[test]
fn clients_say_who_they_are() {
    let cli = ClientIdentity::cli("0.4.0", "linux", "x86_64");
    let headers = cli.headers();
    assert_eq!(headers.len(), 7);
    assert_eq!(value(&headers, "x-ronin-client-surface"), Some("cli"));
    assert_eq!(value(&headers, "x-ronin-cli-version"), Some("0.4.0"));
    assert_eq!(value(&headers, "x-ronin-cli-platform"), Some("linux"));
    assert_eq!(value(&headers, "x-ronin-client-arch"), Some("x86_64"));
    let desktop = ClientIdentity::desktop("1", "linux", "x86_64").headers();
    assert_eq!(desktop.len(), 4);
    assert_eq!(value(&desktop, "x-ronin-cli-version"), None);
    let mut headers = vec![];
    add_header(&mut headers, "a", "1");
    assert_eq!(StaticHeaders(headers).headers().unwrap(), vec![("a".to_string(), "1".to_string())]);
}

#[test]
fn errors_of_the_service_are_read() {
    let body = |code: Option<&str>, message: Option<serde_json::Value>| {
        Some(ErrorBody { code: code.map(str::to_string), message })
    };
    let said = serde_json::Value::String("m".to_string());
    assert_eq!(
        response_error(402, Some("Payment Required"), body(Some("c"), Some(said))),
        ApiError::new(402, "c", "m".to_string())
    );
    let list = serde_json::Value::Array(vec![serde_json::Value::Bool(true)]);
    assert_eq!(response_error(400, None, body(None, Some(list))).message, "[true]");
    assert_eq!(
        response_error(503, Some("Service Unavailable"), None),
        ApiError::new(503, "http_503", "Service Unavailable".to_string())
    );
    assert_eq!(response_error(599, None, None).message, "HTTP error");
    assert_eq!(network_error("x".to_string()).code, "network_error");
    assert_eq!(invalid_response("x".to_string()).code, "invalid_response");
    assert_eq!(show_value(&serde_json::Value::Null), "null");
    assert!(loop_error(network_error("x".to_string())).retryable);
    assert!(loop_error(ApiError::new(500, "c", String::new())).retryable);
    assert!(!loop_error(ApiError::new(404, "c", String::new())).retryable);
}

#[test]
fn addresses_are_encoded() {
    assert_eq!(base_url("https://x///"), "https://x");
    assert_eq!(sessions_path(0, None), "/agent/sessions?limit=1");
    assert_eq!(sessions_path(101, Some("a b/é")), "/agent/sessions?limit=100&before=a%20b%2F%C3%A9");
    assert_eq!(session_path("a/b"), "/agent/sessions/a%2Fb");
    assert_eq!(session_path("A-z_0.~"), "/agent/sessions/A-z_0.~");
    assert_eq!(stop_path("g"), "/generations/g/stop");
}

#[test]
fn frames_are_decoded() {
    let mut decoder = SseDecoder::new("0");
    decoder.push(b"id: 7\nda");
    assert_eq!(decoder.next(), None);
    assert_eq!(decoder.last, "0");
    decoder.push(b"ta: one\ndata:two\n\n: note\n\ndata: three\r\n\r\nrest");
    assert_eq!(decoder.next().as_deref(), Some("one\ntwo"));
    assert_eq!(decoder.last, "7");
    assert_eq!(decoder.next().as_deref(), Some("three"));
    assert_eq!(decoder.next(), None);
    assert_eq!(decoder.buffer, "rest");
    let mut decoder = SseDecoder::new("0");
    decoder.push(b"data: \xff\n\n");
    assert_eq!(decoder.next().as_deref(), Some("\u{fffd}"));
}

#[test]
fn frames_do_not_depend_on_the_pieces() {
    let bytes = b"id: 1\ndata: one\n\ndata: two\n\ndata: three\n\n";
    let frames = |size: usize| {
        let mut decoder = SseDecoder::new("0");
        let mut all = vec![];
        for piece in bytes.chunks(size) {
            decoder.push(piece);
            while let Some(data) = decoder.next() {
                all.push(data);
            }
        }
        (all, decoder.last)
    };
    let whole = frames(bytes.len());
    assert_eq!(whole.0, vec!["one", "two", "three"]);
    assert_eq!(frames(1), whole);
    assert_eq!(frames(7), whole);
}

#[test]
fn streams_reconnect_five_times() {
    let mut stream = GenerationStream::new("https://x".to_string(), "g".to_string());
    assert_eq!(stream.url(), "https://x/generations/g/stream?lastEventId=0");
    stream.decoder.push(b"id: 1 2\ndata: x\n\npart");
    assert!(stream.decoder.next().is_some());
    let mut waits = vec![];
    while stream.may_connect() {
        waits.push(stream.disconnected());
    }
    assert_eq!(waits, vec![500, 1000, 2000, 4000, 8000]);
    assert_eq!(stream.url(), "https://x/generations/g/stream?lastEventId=1%202");
    assert_eq!(stream_disconnected().code, "stream_disconnected");
    assert!(stream_disconnected().retryable);
    assert!(is_terminal(&GenerationStreamEvent::Done {
        message_id: None,
        usage: None,
        cost_micro: None,
        finish_reason: FinishReason::Complete,
    }));
    assert!(!is_terminal(&GenerationStreamEvent::Delta { text: String::new() }));
}
