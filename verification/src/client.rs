//! Talking to the service: what requests carry, what errors mean, and how the stream of a
//! generation is read.
use crate::json::{show_value, shown_json, value_contents, JsonView};
use crate::loop_runner::AgentLoopError;
use crate::storage::{trim_slashes, without_slashes};
use crate::text::{
    after_prefix, begins_with, cat2, cat3, cat4, cat5, chars_of, decimal, find_chars, finishes_with,
    found_from, found_from_is_first, has_text, joined, lines, lossy_text, lossy_utf8, number_text,
    occurs_at, same, split_lines, strip_prefix, text_of, texts, trim, trim_start, trimmed,
    trimmed_start,
};
use crate::types::GenerationStreamEvent;
use vstd::prelude::*;
use vstd::utf8::encode_utf8;

verus! {

// ---------------------------------------------------------------------------------------------
// Headers
// ---------------------------------------------------------------------------------------------

/// Headers of a request: names and values.
pub type Headers = Vec<(String, String)>;

/// What a client says of itself.
#[derive(Debug, Clone, PartialEq, Eq)]
pub struct ClientIdentity {
    pub surface: String,
    pub version: String,
    pub platform: String,
    pub arch: String,
}

/// The headers by which a client says what it is.
pub open spec fn identity_headers(id: ClientIdentity) -> Seq<(Seq<char>, Seq<char>)> {
    let all = seq![
        ("x-ronin-client-surface"@, id.surface@),
        ("x-ronin-client-version"@, id.version@),
        ("x-ronin-client-platform"@, id.platform@),
        ("x-ronin-client-arch"@, id.arch@),
    ];
    if id.surface@ == "cli"@ {
        all + seq![
            ("x-ronin-cli-version"@, id.version@),
            ("x-ronin-cli-platform"@, id.platform@),
            ("x-ronin-cli-arch"@, id.arch@),
        ]
    } else {
        all
    }
}

/// Adds a header.
pub fn add_header(headers: &mut Headers, name: &str, value: &str)
    ensures
        final(headers).deep_view() == old(headers).deep_view().push((name@, value@)),
{
    let ghost before = headers.deep_view();
    let entry = (name.to_owned(), value.to_owned());
    headers.push(entry);
    assert(headers.deep_view() =~= before.push(entry.deep_view()));
}

impl ClientIdentity {
    /// The client in the terminal.
    pub fn cli(version: &str, platform: &str, arch: &str) -> (r: Self)
        ensures
            r.surface@ == "cli"@,
            r.version@ == version@,
            r.platform@ == platform@,
            r.arch@ == arch@,
    {
        ClientIdentity {
            surface: "cli".to_owned(),
            version: version.to_owned(),
            platform: platform.to_owned(),
            arch: arch.to_owned(),
        }
    }

    /// The client on the desktop.
    pub fn desktop(version: &str, platform: &str, arch: &str) -> (r: Self)
        ensures
            r.surface@ == "desktop"@,
            r.version@ == version@,
            r.platform@ == platform@,
            r.arch@ == arch@,
    {
        ClientIdentity {
            surface: "desktop".to_owned(),
            version: version.to_owned(),
            platform: platform.to_owned(),
            arch: arch.to_owned(),
        }
    }

    /// The headers by which a client says what it is.
    pub fn headers(&self) -> (r: Headers)
        ensures
            r.deep_view() == identity_headers(*self),
    {
        let mut headers: Headers = Vec::new();
        assert(headers.deep_view() =~= Seq::empty());
        add_header(&mut headers, "x-ronin-client-surface", self.surface.as_str());
        add_header(&mut headers, "x-ronin-client-version", self.version.as_str());
        add_header(&mut headers, "x-ronin-client-platform", self.platform.as_str());
        add_header(&mut headers, "x-ronin-client-arch", self.arch.as_str());
        if same(self.surface.as_str(), "cli") {
            add_header(&mut headers, "x-ronin-cli-version", self.version.as_str());
            add_header(&mut headers, "x-ronin-cli-platform", self.platform.as_str());
            add_header(&mut headers, "x-ronin-cli-arch", self.arch.as_str());
        }
        assert(headers.deep_view() =~= identity_headers(*self));
        headers
    }
}

/// What gives the headers that let a request in.
pub trait HeaderProvider {
    /// Whether a result is what the provider gives.
    spec fn provides(&self, result: Result<Headers, ApiError>) -> bool;

    /// The headers, or why there are none.
    fn headers(&self) -> (r: Result<Headers, ApiError>)
        ensures
            self.provides(r),
    ;
}

/// Headers that are always the same.
#[derive(Debug, Clone, PartialEq, Eq)]
pub struct StaticHeaders(pub Headers);

impl HeaderProvider for StaticHeaders {
    open spec fn provides(&self, result: Result<Headers, ApiError>) -> bool {
        result matches Ok(headers) && headers.deep_view() == self.0.deep_view()
    }

    fn headers(&self) -> (r: Result<Headers, ApiError>) {
        let ghost all = self.0.deep_view();
        let mut r: Headers = Vec::new();
        let mut i: usize = 0;
        assert(r.deep_view() =~= all.take(0));
        while i < self.0.len()
            invariant
                i <= self.0@.len(),
                all == self.0.deep_view(),
                r.deep_view() == all.take(i as int),
            decreases self.0.len() - i,
        {
            assert(all[i as int] == (self.0@[i as int].0@, self.0@[i as int].1@));
            add_header(&mut r, self.0[i].0.as_str(), self.0[i].1.as_str());
            assert(r.deep_view() =~= all.take(i + 1));
            i += 1;
        }
        assert(all.take(i as int) =~= all);
        Ok(r)
    }
}

// ---------------------------------------------------------------------------------------------
// Errors
// ---------------------------------------------------------------------------------------------

/// Why a request failed; the status is 0 where there was no answer.
#[derive(Debug, Clone, PartialEq, Eq)]
pub struct ApiError {
    pub status: u16,
    pub code: String,
    pub message: String,
}

impl ApiError {
    /// An error.
    pub fn new(status: u16, code: &str, message: String) -> (r: Self)
        ensures
            r.status == status,
            r.code@ == code@,
            r.message == message,
    {
        ApiError { status, code: code.to_owned(), message }
    }

    /// The error as it is shown.
    pub fn text(&self) -> (r: String)
        ensures
            r@ == "API error ("@ + self.code@ + "): "@ + self.message@,
    {
        cat4("API error (", self.code.as_str(), "): ", self.message.as_str())
    }
}

/// What the body of an answer says of an error.
#[derive(Debug, PartialEq, Eq)]
pub struct ErrorBody {
    pub code: Option<String>,
    pub message: Option<serde_json::Value>,
}

/// The message of an error: that of the body, and where it has none the reason of the status.
pub open spec fn error_message(reason: Option<Seq<char>>, body: Option<ErrorBody>) -> Seq<char> {
    let fallback = match reason {
        Some(text) => text,
        None => "HTTP error"@,
    };
    match body {
        Some(b) => match b.message {
            Some(value) => shown_json(value_contents(value)),
            None => fallback,
        },
        None => fallback,
    }
}

/// The code of an error: that of the body, and where it has none one made of the status.
pub open spec fn error_code(status: u16, body: Option<ErrorBody>) -> Seq<char> {
    let fallback = "http_"@ + decimal(status as nat);
    match body {
        Some(b) => match b.code {
            Some(code) => code@,
            None => fallback,
        },
        None => fallback,
    }
}

/// The error that an answer tells.
pub fn response_error(status: u16, reason: Option<&str>, body: Option<ErrorBody>) -> (r: ApiError)
    ensures
        r.status == status,
        r.code@ == error_code(status, body),
        r.message@ == error_message(reason.deep_view(), body),
{
    let mut code = cat2("http_", number_text(status as u64).as_str());
    let mut message = match reason {
        Some(text) => text.to_owned(),
        None => "HTTP error".to_owned(),
    };
    if let Some(b) = body {
        if let Some(given) = b.code {
            code = given;
        }
        if let Some(value) = b.message {
            message = show_value(&value);
        }
    }
    ApiError { status, code, message }
}

/// The error of a request that got no answer.
pub fn network_error(message: String) -> (r: ApiError)
    ensures
        r.status == 0,
        r.code@ == "network_error"@,
        r.message == message,
{
    ApiError::new(0, "network_error", message)
}

/// The error of an answer that cannot be read.
pub fn invalid_response(message: String) -> (r: ApiError)
    ensures
        r.status == 0,
        r.code@ == "invalid_response"@,
        r.message == message,
{
    ApiError::new(0, "invalid_response", message)
}

/// Whether trying again may help.
pub open spec fn may_pass(status: u16) -> bool {
    status == 0 || status >= 500
}

/// The error that ends the agent loop: trying again may help where the service did not answer or
/// failed.
pub fn loop_error(error: ApiError) -> (r: AgentLoopError)
    ensures
        r == (AgentLoopError {
            code: error.code,
            message: error.message,
            retryable: may_pass(error.status),
        }),
{
    let retryable = error.status == 0 || error.status >= 500;
    AgentLoopError::new(error.code, error.message, retryable)
}

// ---------------------------------------------------------------------------------------------
// Addresses
// ---------------------------------------------------------------------------------------------

/// Whether a byte stands for itself in an address.
pub open spec fn unreserved(b: u8) -> bool {
    (48 <= b <= 57) || (65 <= b <= 90) || (97 <= b <= 122) || b == 45 || b == 46 || b == 95 || b
        == 126
}

/// The upper-case hexadecimal digit of a number below 16.
pub open spec fn upper_hex_digit(n: int) -> char {
    if n < 10 {
        (('0' as u32 + n) as u32) as char
    } else {
        (('A' as u32 + n - 10) as u32) as char
    }
}

/// Bytes as they stand in an address.
pub open spec fn percent_encoded(bytes: Seq<u8>) -> Seq<char>
    decreases bytes.len(),
{
    if bytes.len() == 0 {
        Seq::empty()
    } else {
        let b = bytes.last();
        percent_encoded(bytes.drop_last()) + if unreserved(b) {
            seq![b as char]
        } else {
            seq!['%', upper_hex_digit(b as int / 16), upper_hex_digit(b as int % 16)]
        }
    }
}

/// `urlencoding::encode`: a text with every byte percent-encoded but letters, digits, `-`, `_`, `.`
/// and `~`.
#[verifier::external_body]
fn encode_url(text: &str) -> (r: String)
    ensures
        r@ == percent_encoded(encode_utf8(text@)),
{
    urlencoding::encode(text).into_owned()
}

/// The address of the service, without the slashes at its end.
pub fn base_url(base: &str) -> (r: String)
    ensures
        r@ == without_slashes(base@),
{
    trim_slashes(base)
}

/// How many sessions a page has.
pub open spec fn page_limit(limit: nat) -> nat {
    if limit < 1 {
        1
    } else if limit > 100 {
        100
    } else {
        limit
    }
}

/// Where a page of the sessions that the service keeps is found.
pub open spec fn sessions_address(limit: nat, before: Option<Seq<char>>) -> Seq<char> {
    let path = "/agent/sessions?limit="@ + decimal(page_limit(limit));
    match before {
        Some(id) => path + "&before="@ + percent_encoded(encode_utf8(id)),
        None => path,
    }
}

/// A page of the sessions that the service keeps, of 1 to 100 sessions.
pub fn sessions_path(limit: u8, before: Option<&str>) -> (r: String)
    ensures
        r@ == sessions_address(limit as nat, before.deep_view()),
{
    let n: u8 = if limit < 1 {
        1
    } else if limit > 100 {
        100
    } else {
        limit
    };
    let path = cat2("/agent/sessions?limit=", number_text(n as u64).as_str());
    match before {
        Some(id) => cat3(path.as_str(), "&before=", encode_url(id).as_str()),
        None => path,
    }
}

/// A session that the service keeps.
pub fn session_path(session_id: &str) -> (r: String)
    ensures
        r@ == "/agent/sessions/"@ + percent_encoded(encode_utf8(session_id@)),
{
    cat2("/agent/sessions/", encode_url(session_id).as_str())
}

/// Where a generation is stopped.
pub fn stop_path(generation_id: &str) -> (r: String)
    ensures
        r@ == "/generations/"@ + generation_id@ + "/stop"@,
{
    cat3("/generations/", generation_id, "/stop")
}

// ---------------------------------------------------------------------------------------------
// Server-sent events
// ---------------------------------------------------------------------------------------------

/// Where the first frame in a buffer ends, and how many characters separate it from the next.
pub open spec fn frame_end(buffer: Seq<char>) -> Option<(int, int)> {
    match found_from(buffer, "\n\n"@, 0) {
        Some(i) => Some((i, 2)),
        None => match found_from(buffer, "\r\n\r\n"@, 0) {
            Some(i) => Some((i, 4)),
            None => None,
        },
    }
}

/// A text with line feeds in place of carriage returns and line feeds.
pub open spec fn with_line_feeds(s: Seq<char>) -> Seq<char>
    decreases s.len(),
{
    if s.len() == 0 {
        s
    } else if s.len() >= 2 && s[0] == '\r' && s[1] == '\n' {
        seq!['\n'] + with_line_feeds(s.skip(2))
    } else {
        seq![s[0]] + with_line_feeds(s.skip(1))
    }
}

/// The id of the last event, after the lines of a frame.
pub open spec fn id_after(rows: Seq<Seq<char>>, last: Seq<char>) -> Seq<char>
    decreases rows.len(),
{
    if rows.len() == 0 {
        last
    } else {
        match after_prefix(rows.last(), "id:"@) {
            Some(v) => trimmed(v),
            None => id_after(rows.drop_last(), last),
        }
    }
}

/// The data in the lines of a frame.
pub open spec fn data_in(rows: Seq<Seq<char>>) -> Seq<char>
    decreases rows.len(),
{
    if rows.len() == 0 {
        Seq::empty()
    } else {
        let before = data_in(rows.drop_last());
        match after_prefix(rows.last(), "data:"@) {
            Some(v) => (if before.len() > 0 {
                before.push('\n')
            } else {
                before
            }) + trimmed_start(v),
            None => before,
        }
    }
}

/// The data of the first frame in a buffer that has any, what is left of the buffer, and the id of
/// the last event.
pub open spec fn next_data(buffer: Seq<char>, last: Seq<char>) -> (
    Option<Seq<char>>,
    Seq<char>,
    Seq<char>,
)
    decreases buffer.len(),
{
    match frame_end(buffer) {
        Some((end, skip)) if 0 <= end && 0 < skip && end + skip <= buffer.len() => {
            let rows = lines(with_line_feeds(buffer.take(end)));
            let rest = buffer.skip(end + skip);
            let id = id_after(rows, last);
            let data = data_in(rows);
            if data.len() == 0 {
                next_data(rest, id)
            } else {
                (Some(data), rest, id)
            }
        },
        _ => (None, buffer, last),
    }
}

fn replace_line_ends(v: &Vec<char>, from: usize, to: usize) -> (r: String)
    requires
        from <= to <= v@.len(),
    ensures
        r@ == with_line_feeds(v@.subrange(from as int, to as int)),
{
    let ghost s = v@.subrange(from as int, to as int);
    let mut r = String::new();
    let mut i: usize = from;
    assert(s.skip(0) =~= s);
    while i < to
        invariant
            from <= i <= to <= v@.len(),
            s == v@.subrange(from as int, to as int),
            r@ + with_line_feeds(s.skip(i - from)) == with_line_feeds(s),
        decreases to - i,
    {
        let ghost t = s.skip(i - from);
        let ghost before = r@;
        assert(t[0] == v@[i as int]);
        if i + 1 < to && v[i] == '\r' && v[i + 1] == '\n' {
            assert(t[1] == v@[i + 1]);
            r.push('\n');
            assert(t.skip(2) =~= s.skip(i - from + 2));
            assert(r@ + with_line_feeds(s.skip(i - from + 2)) =~= before + (seq!['\n']
                + with_line_feeds(s.skip(i - from + 2))));
            i += 2;
        } else {
            assert(t.len() >= 2 ==> t[1] == v@[i + 1]);
            r.push(v[i]);
            assert(t.skip(1) =~= s.skip(i - from + 1));
            assert(r@ + with_line_feeds(s.skip(i - from + 1)) =~= before + (seq![t[0]]
                + with_line_feeds(s.skip(i - from + 1))));
            i += 1;
        }
    }
    assert(s.skip(i - from) =~= Seq::empty());
    assert(r@ + with_line_feeds(s.skip(i - from)) =~= r@);
    r
}

/// Reads events out of the bytes of a stream.
#[derive(Debug)]
pub struct SseDecoder {
    pub buffer: String,
    pub last: String,
}

impl SseDecoder {
    /// A decoder that has read nothing, after the event of an id.
    pub fn new(last: &str) -> (r: Self)
        ensures
            r.buffer@.len() == 0,
            r.last@ == last@,
    {
        SseDecoder { buffer: String::new(), last: last.to_owned() }
    }

    /// Takes bytes of the stream.
    pub fn push(&mut self, bytes: &[u8])
        ensures
            final(self).buffer@ == old(self).buffer@ + lossy_utf8(bytes@),
            final(self).last == old(self).last,
    {
        self.buffer.append(lossy_text(bytes).as_str());
    }

    fn read_rows(&mut self, rows: &Vec<String>) -> (r: String)
        ensures
            r@ == data_in(texts(rows@)),
            final(self).last@ == id_after(texts(rows@), old(self).last@),
            final(self).buffer == old(self).buffer,
    {
        let ghost all = texts(rows@);
        let ghost last = self.last@;
        let mut data = String::new();
        let mut i: usize = 0;
        while i < rows.len()
            invariant
                i <= rows@.len(),
                all == texts(rows@),
                data@ == data_in(all.take(i as int)),
                self.last@ == id_after(all.take(i as int), last),
                self.buffer == old(self).buffer,
            decreases rows.len() - i,
        {
            let ghost head = all.take(i + 1);
            assert(head.drop_last() =~= all.take(i as int));
            assert(head.last() == rows@[i as int]@);
            let row = rows[i].as_str();
            if let Some(v) = strip_prefix(row, "id:") {
                self.last = trim(v.as_str());
            }
            if let Some(v) = strip_prefix(row, "data:") {
                if !data.as_str().is_empty() {
                    data.push('\n');
                }
                data.append(trim_start(v.as_str()).as_str());
            }
            i += 1;
        }
        assert(all.take(i as int) =~= all);
        data
    }

    /// The data of the next event that has any; nothing where the rest of it has not come yet.
    pub fn next(&mut self) -> (r: Option<String>)
        ensures
            (r.deep_view(), final(self).buffer@, final(self).last@) == next_data(
                old(self).buffer@,
                old(self).last@,
            ),
    {
        let ghost expected = next_data(self.buffer@, self.last@);
        proof {
            reveal_strlit("\n\n");
            reveal_strlit("\r\n\r\n");
        }
        let feeds = chars_of("\n\n");
        let breaks = chars_of("\r\n\r\n");
        loop
            invariant
                feeds@ == "\n\n"@,
                breaks@ == "\r\n\r\n"@,
                feeds@.len() == 2,
                breaks@.len() == 4,
                next_data(self.buffer@, self.last@) == expected,
                expected == next_data(old(self).buffer@, old(self).last@),
            decreases self.buffer@.len(),
        {
            let v = chars_of(self.buffer.as_str());
            let mut end: usize = 0;
            let mut skip: usize = 0;
            match find_chars(&v, &feeds, 0) {
                Some(i) => {
                    end = i;
                    skip = 2;
                },
                None => match find_chars(&v, &breaks, 0) {
                    Some(i) => {
                        end = i;
                        skip = 4;
                    },
                    None => return None,
                },
            }
            let ghost before = self.buffer@;
            let frame = replace_line_ends(&v, 0, end);
            assert(v@.subrange(0, end as int) =~= before.take(end as int));
            self.buffer = text_of(&v, end + skip, v.len());
            assert(self.buffer@ =~= before.skip(end + skip));
            let rows = split_lines(frame.as_str());
            let data = self.read_rows(&rows);
            if !data.as_str().is_empty() {
                return Some(data);
            }
        }
    }
}

/// The milliseconds to wait after an attempt to read a stream.
pub open spec fn backoff(attempt: nat) -> nat
    decreases attempt,
{
    if attempt == 0 {
        500
    } else {
        2 * backoff((attempt - 1) as nat)
    }
}

/// The stream of a generation, which is taken up again where it breaks off.
#[derive(Debug)]
pub struct GenerationStream {
    pub base: String,
    pub generation_id: String,
    pub decoder: SseDecoder,
    pub attempt: u32,
}

impl GenerationStream {
    /// The stream of a generation, from its start.
    pub fn new(base: String, generation_id: String) -> (r: Self)
        ensures
            r.base == base,
            r.generation_id == generation_id,
            r.decoder.buffer@.len() == 0,
            r.decoder.last@ == "0"@,
            r.attempt == 0,
    {
        GenerationStream { base, generation_id, decoder: SseDecoder::new("0"), attempt: 0 }
    }

    /// Whether the stream may be taken up once more.
    pub fn may_connect(&self) -> (r: bool)
        ensures
            r == (self.attempt < 5),
    {
        self.attempt < 5
    }

    /// Where the stream goes on after the last event that was read.
    pub fn url(&self) -> (r: String)
        ensures
            r@ == self.base@ + "/generations/"@ + self.generation_id@ + "/stream?lastEventId="@
                + percent_encoded(encode_utf8(self.decoder.last@)),
    {
        cat5(
            self.base.as_str(),
            "/generations/",
            self.generation_id.as_str(),
            "/stream?lastEventId=",
            encode_url(self.decoder.last.as_str()).as_str(),
        )
    }

    /// Takes that the stream broke off; gives the milliseconds to wait before the next attempt. The
    /// next one goes on after the last event that was read.
    pub fn disconnected(&mut self) -> (r: u64)
        requires
            old(self).attempt < 5,
        ensures
            r == backoff(old(self).attempt as nat),
            final(self).attempt == old(self).attempt + 1,
            final(self).base == old(self).base,
            final(self).generation_id == old(self).generation_id,
            final(self).decoder.buffer@.len() == 0,
            final(self).decoder.last == old(self).decoder.last,
    {
        let mut delay: u64 = 500;
        let mut i: u32 = 0;
        while i < self.attempt
            invariant
                i <= self.attempt < 5,
                self == old(self),
                delay == backoff(i as nat),
                i == 0 ==> delay == 500,
                i == 1 ==> delay == 1000,
                i == 2 ==> delay == 2000,
                i == 3 ==> delay == 4000,
                i == 4 ==> delay == 8000,
            decreases self.attempt - i,
        {
            delay = 2 * delay;
            i += 1;
        }
        self.attempt = self.attempt + 1;
        self.decoder.buffer = String::new();
        delay
    }
}

/// Whether an event is the last of its stream.
pub fn is_terminal(event: &GenerationStreamEvent) -> (r: bool)
    ensures
        r == (event is Done || event is Error),
{
    match event {
        GenerationStreamEvent::Done { .. } => true,
        GenerationStreamEvent::Error { .. } => true,
        _ => false,
    }
}

/// The error of a stream that could not be taken up again.
pub fn stream_disconnected() -> (r: AgentLoopError)
    ensures
        r.code@ == "stream_disconnected"@,
        r.message@ == "Lost the generation stream and could not reconnect"@,
        r.retryable,
{
    AgentLoopError::new(
        "stream_disconnected".to_owned(),
        "Lost the generation stream and could not reconnect".to_owned(),
        true,
    )
}

// ---------------------------------------------------------------------------------------------
// Laws
// ---------------------------------------------------------------------------------------------

/// Whether what follows leaves the ends of the events that are read where they are: a pair of line
/// feeds counts before a pair of carriage returns and line feeds, wherever it stands.
pub open spec fn ends_stay(buffer: Seq<char>, more: Seq<char>) -> bool
    decreases buffer.len(),
{
    match frame_end(buffer) {
        Some((end, skip)) if 0 <= end && 0 < skip && end + skip <= buffer.len() => {
            &&& skip == 2 || !has_text(buffer + more, "\n\n"@)
            &&& data_in(lines(with_line_feeds(buffer.take(end)))).len() == 0 ==> ends_stay(
                buffer.skip(end + skip),
                more,
            )
        },
        _ => true,
    }
}

proof fn first_place_stays(buffer: Seq<char>, more: Seq<char>, p: Seq<char>)
    requires
        found_from(buffer, p, 0) is Some,
    ensures
        found_from(buffer + more, p, 0) == found_from(buffer, p, 0),
{
    let all = buffer + more;
    let n = p.len() as int;
    found_from_is_first(buffer, p, 0);
    found_from_is_first(all, p, 0);
    let i = found_from(buffer, p, 0)->0;
    assert(all.subrange(i, i + n) =~= buffer.subrange(i, i + n));
    assert(occurs_at(all, p, i));
    let j = found_from(all, p, 0)->0;
    if j < i {
        assert(all.subrange(j, j + n) =~= buffer.subrange(j, j + n));
        assert(occurs_at(buffer, p, j));
    }
}

proof fn frame_end_stays(buffer: Seq<char>, more: Seq<char>)
    requires
        frame_end(buffer) matches Some((end, skip)) && (skip == 2 || !has_text(
            buffer + more,
            "\n\n"@,
        )),
    ensures
        frame_end(buffer + more) == frame_end(buffer),
        frame_end(buffer) matches Some((end, skip)) ==> 0 <= end && 0 < skip && end + skip
            <= buffer.len(),
{
    reveal_strlit("\n\n");
    reveal_strlit("\r\n\r\n");
    found_from_is_first(buffer, "\n\n"@, 0);
    found_from_is_first(buffer, "\r\n\r\n"@, 0);
    found_from_is_first(buffer + more, "\n\n"@, 0);
    if found_from(buffer, "\n\n"@, 0) is Some {
        first_place_stays(buffer, more, "\n\n"@);
    } else {
        first_place_stays(buffer, more, "\r\n\r\n"@);
    }
}

/// An event that can be read does not depend on what the stream brings after it, so that the same
/// events are read however the text of a stream is cut into pieces; what follows must leave the ends
/// of the events where they are.
pub proof fn events_do_not_depend_on_what_follows(
    buffer: Seq<char>,
    more: Seq<char>,
    last: Seq<char>,
)
    requires
        ends_stay(buffer, more),
        next_data(buffer, last).0 is Some,
    ensures
        next_data(buffer + more, last) == (
            next_data(buffer, last).0,
            next_data(buffer, last).1 + more,
            next_data(buffer, last).2,
        ),
    decreases buffer.len(),
{
    let all = buffer + more;
    if frame_end(buffer) is Some {
        let (end, skip) = frame_end(buffer)->0;
        frame_end_stays(buffer, more);
        assert(all.take(end) =~= buffer.take(end));
        assert(all.skip(end + skip) =~= buffer.skip(end + skip) + more);
        let rows = lines(with_line_feeds(buffer.take(end)));
        if data_in(rows).len() == 0 {
            events_do_not_depend_on_what_follows(
                buffer.skip(end + skip),
                more,
                id_after(rows, last),
            );
        }
    }
}

/// Waiting times double from one attempt to the next.
pub proof fn waiting_doubles(attempt: nat)
    ensures
        backoff(attempt + 1) == 2 * backoff(attempt),
        backoff(0) == 500,
{
}

/// The values of the data lines among the lines of a frame, without the white space in front.
pub open spec fn data_values(rows: Seq<Seq<char>>) -> Seq<Seq<char>> {
    rows.filter(|row: Seq<char>| begins_with(row, "data:"@)).map_values(
        |row: Seq<char>| trimmed_start(row.skip(5)),
    )
}

/// The data of a frame are the values of its data lines, in their order and a line each, where none
/// of them is empty; other lines count for nothing.
pub proof fn data_are_the_values_of_data_lines(rows: Seq<Seq<char>>)
    requires
        forall|i: int| 0 <= i < data_values(rows).len() ==> (#[trigger] data_values(rows)[i]).len() > 0,
    ensures
        data_in(rows) == joined(data_values(rows), seq!['\n']),
        data_values(rows).len() > 0 ==> data_in(rows).len() > 0,
    decreases rows.len(),
{
    reveal(Seq::filter);
    reveal_strlit("data:");
    let is_data = |row: Seq<char>| begins_with(row, "data:"@);
    let value = |row: Seq<char>| trimmed_start(row.skip(5));
    let values = data_values(rows);
    if rows.len() == 0 {
        assert(values =~= Seq::empty());
    } else {
        let rest = rows.drop_last();
        let before = data_values(rest);
        if is_data(rows.last()) {
            assert(values =~= before.push(value(rows.last())));
            assert forall|i: int| 0 <= i < before.len() implies (#[trigger] before[i]).len() > 0 by {
                assert(values[i] == before[i]);
            }
            data_are_the_values_of_data_lines(rest);
            assert(values[before.len() as int] == value(rows.last()));
            assert(values.drop_last() =~= before);
            if before.len() == 0 {
                assert(joined(values, seq!['\n']) == values[0]);
                assert(data_in(rows) =~= values[0]);
            } else {
                assert(data_in(rows) =~= joined(before, seq!['\n']) + seq!['\n'] + values.last());
            }
        } else {
            assert(values =~= before);
            data_are_the_values_of_data_lines(rest);
        }
    }
}

/// The id of the last event is what the last line with an id says; lines without leave it as it was.
pub proof fn the_last_id_counts(rows: Seq<Seq<char>>, last: Seq<char>, at: int)
    requires
        -1 <= at < rows.len(),
        at >= 0 ==> begins_with(rows[at], "id:"@),
        forall|i: int| at < i < rows.len() ==> !begins_with(#[trigger] rows[i], "id:"@),
    ensures
        at < 0 ==> id_after(rows, last) == last,
        at >= 0 ==> id_after(rows, last) == trimmed(rows[at].skip(3)),
    decreases rows.len(),
{
    reveal_strlit("id:");
    if rows.len() > 0 && at < rows.len() - 1 {
        assert(!begins_with(rows[rows.len() - 1], "id:"@));
        the_last_id_counts(rows.drop_last(), last, at);
    }
}

/// A frame that ends in a blank line is read as one event: its data, and behind it the rest of the
/// stream. One without data is passed over.
pub proof fn frames_are_read_one_by_one(frame: Seq<char>, rest: Seq<char>, last: Seq<char>)
    requires
        !has_text(frame.push('\n'), "\n\n"@),
    ensures
        ({
            let rows = lines(with_line_feeds(frame));
            let all = frame + "\n\n"@ + rest;
            &&& data_in(rows).len() > 0 ==> next_data(all, last) == (
                Some(data_in(rows)),
                rest,
                id_after(rows, last),
            )
            &&& data_in(rows).len() == 0 ==> next_data(all, last) == next_data(
                rest,
                id_after(rows, last),
            )
        }),
{
    reveal_strlit("\n\n");
    let all = frame + "\n\n"@ + rest;
    let p = "\n\n"@;
    let n = frame.len() as int;
    found_from_is_first(all, p, 0);
    assert(all.subrange(n, n + 2) =~= p);
    assert(occurs_at(all, p, n));
    assert forall|j: int| 0 <= j < n implies !occurs_at(all, p, j) by {
        if occurs_at(all, p, j) {
            let shorter = frame.push('\n');
            assert(shorter.subrange(j, j + 2) =~= all.subrange(j, j + 2));
            assert(occurs_at(shorter, p, j));
        }
    }
    assert(found_from(all, p, 0) == Some(n));
    assert(all.take(n) =~= frame);
    assert(all.skip(n + 2) =~= rest);
}

/// Without an end of a frame nothing is read and nothing is lost.
pub proof fn unfinished_frames_wait(buffer: Seq<char>, last: Seq<char>)
    requires
        !has_text(buffer, "\n\n"@),
        !has_text(buffer, "\r\n\r\n"@),
    ensures
        next_data(buffer, last) == (None::<Seq<char>>, buffer, last),
{
    found_from_is_first(buffer, "\n\n"@, 0);
    found_from_is_first(buffer, "\r\n\r\n"@, 0);
    if found_from(buffer, "\n\n"@, 0) is Some {
        assert(occurs_at(buffer, "\n\n"@, found_from(buffer, "\n\n"@, 0)->0));
    }
    if found_from(buffer, "\r\n\r\n"@, 0) is Some {
        assert(occurs_at(buffer, "\r\n\r\n"@, found_from(buffer, "\r\n\r\n"@, 0)->0));
    }
}

/// Each carriage return in front of a line feed goes, and nothing else does.
pub proof fn line_ends_become_line_feeds(a: Seq<char>, b: Seq<char>)
    ensures
        with_line_feeds(a + seq!['\r', '\n'] + b) == with_line_feeds(a) + seq!['\n']
            + with_line_feeds(b),
        (forall|i: int| 0 <= i < a.len() ==> #[trigger] a[i] != '\r') ==> with_line_feeds(a) == a,
    decreases a.len(),
{
    let all = a + seq!['\r', '\n'] + b;
    if a.len() == 0 {
        assert(all.skip(2) =~= b);
        assert(with_line_feeds(a) =~= a);
        assert(with_line_feeds(all) =~= with_line_feeds(a) + seq!['\n'] + with_line_feeds(b));
    } else if a.len() >= 2 && a[0] == '\r' && a[1] == '\n' {
        line_ends_become_line_feeds(a.skip(2), b);
        assert(all.skip(2) =~= a.skip(2) + seq!['\r', '\n'] + b);
        assert(with_line_feeds(all) =~= with_line_feeds(a) + seq!['\n'] + with_line_feeds(b));
    } else {
        line_ends_become_line_feeds(a.skip(1), b);
        assert(all.skip(1) =~= a.skip(1) + seq!['\r', '\n'] + b);
        assert(all[1] == if a.len() >= 2 {
            a[1]
        } else {
            '\r'
        });
        assert(with_line_feeds(all) =~= with_line_feeds(a) + seq!['\n'] + with_line_feeds(b));
        if forall|i: int| 0 <= i < a.len() ==> #[trigger] a[i] != '\r' {
            assert forall|i: int| 0 <= i < a.skip(1).len() implies #[trigger] a.skip(1)[i]
                != '\r' by {
                assert(a.skip(1)[i] == a[i + 1]);
            }
            assert(with_line_feeds(a) =~= a);
        }
    }
}

/// An error is told by what the body of the answer says of it, and where that says nothing by the
/// status.
pub proof fn errors_are_told_by_the_body(status: u16, reason: Option<Seq<char>>, body: ErrorBody)
    ensures
        body.code matches Some(code) ==> error_code(status, Some(body)) == code@,
        body.code is None ==> error_code(status, Some(body)) == "http_"@ + decimal(status as nat),
        error_code(status, None) == "http_"@ + decimal(status as nat),
        body.message is None ==> error_message(reason, Some(body)) == error_message(reason, None),
        body.message matches Some(value) ==> (value_contents(value) matches JsonView::Text(s)
            ==> error_message(reason, Some(body)) == s),
        reason matches Some(text) ==> error_message(reason, None) == text,
        error_message(None, None) == "HTTP error"@,
{
}

/// The number that an upper-case hexadecimal digit stands for.
pub open spec fn upper_hex_value(c: char) -> int {
    if '0' <= c <= '9' {
        c as int - '0' as int
    } else {
        c as int - 'A' as int + 10
    }
}

/// What stands in an address is made byte by byte: letters, digits and four marks stand for
/// themselves, every other byte for a percent sign and its two digits.
pub proof fn addresses_are_made_byte_by_byte(a: Seq<u8>, b: Seq<u8>, byte: u8)
    ensures
        percent_encoded(a + b) == percent_encoded(a) + percent_encoded(b),
        unreserved(byte) ==> percent_encoded(seq![byte]) == seq![byte as char],
        !unreserved(byte) ==> ({
            let text = percent_encoded(seq![byte]);
            text.len() == 3 && text[0] == '%' && 16 * upper_hex_value(text[1]) + upper_hex_value(
                text[2],
            ) == byte
        }),
    decreases b.len(),
{
    assert(seq![byte].drop_last() =~= Seq::<u8>::empty());
    assert(percent_encoded(Seq::<u8>::empty()) =~= Seq::<char>::empty());
    let one = if unreserved(byte) {
        seq![byte as char]
    } else {
        seq!['%', upper_hex_digit(byte as int / 16), upper_hex_digit(byte as int % 16)]
    };
    assert(percent_encoded(seq![byte]) =~= one);
    if b.len() == 0 {
        assert(a + b =~= a);
        assert(percent_encoded(a) + percent_encoded(b) =~= percent_encoded(a));
    } else {
        addresses_are_made_byte_by_byte(a, b.drop_last(), byte);
        assert((a + b).drop_last() =~= a + b.drop_last());
        assert(percent_encoded(a + b) =~= percent_encoded(a) + percent_encoded(b));
    }
}

/// Every request says with which surface, version, platform and architecture it is made, each under
/// its own name.
pub proof fn clients_say_what_they_are(id: ClientIdentity)
    ensures
        identity_headers(id).contains(("x-ronin-client-surface"@, id.surface@)),
        identity_headers(id).contains(("x-ronin-client-version"@, id.version@)),
        identity_headers(id).contains(("x-ronin-client-platform"@, id.platform@)),
        identity_headers(id).contains(("x-ronin-client-arch"@, id.arch@)),
        id.surface@ == "cli"@ ==> {
            &&& identity_headers(id).contains(("x-ronin-cli-version"@, id.version@))
            &&& identity_headers(id).contains(("x-ronin-cli-platform"@, id.platform@))
            &&& identity_headers(id).contains(("x-ronin-cli-arch"@, id.arch@))
        },
        id.surface@ != "cli"@ ==> identity_headers(id).len() == 4,
{
    let all = identity_headers(id);
    assert(all[0] == ("x-ronin-client-surface"@, id.surface@));
    assert(all[1] == ("x-ronin-client-version"@, id.version@));
    assert(all[2] == ("x-ronin-client-platform"@, id.platform@));
    assert(all[3] == ("x-ronin-client-arch"@, id.arch@));
    if id.surface@ == "cli"@ {
        assert(all[4] == ("x-ronin-cli-version"@, id.version@));
        assert(all[5] == ("x-ronin-cli-platform"@, id.platform@));
        assert(all[6] == ("x-ronin-cli-arch"@, id.arch@));
    }
}

/// A page of sessions has one to a hundred of them, as many as were asked for where that is
/// between; it starts behind the session that is named.
pub proof fn pages_of_sessions_are_bounded(limit: nat, before: Seq<char>)
    ensures
        1 <= page_limit(limit) <= 100,
        1 <= limit <= 100 ==> page_limit(limit) == limit,
        begins_with(sessions_address(limit, None), "/agent/sessions?limit="@),
        sessions_address(limit, Some(before)) == sessions_address(limit, None) + "&before="@
            + percent_encoded(encode_utf8(before)),
        finishes_with(sessions_address(limit, None), decimal(page_limit(limit))),
{
    let path = sessions_address(limit, None);
    let head = "/agent/sessions?limit="@;
    let number = decimal(page_limit(limit));
    assert(path.subrange(0, head.len() as int) =~= head);
    assert(path.subrange(path.len() - number.len(), path.len() as int) =~= number);
}

/// Trying again may help exactly where the service did not answer or failed.
pub proof fn failures_of_the_service_may_pass(status: u16)
    ensures
        may_pass(status) <==> status == 0 || status >= 500,
        400 <= status < 500 ==> !may_pass(status),
{
}

} // verus!
