//! The local HTTP endpoint that client libraries send their dumps to:
//! routing, CORS headers and the answers to a posted payload.

use vstd::prelude::*;
use crate::events::ConnectionEstablishedEvent;
use crate::text::{chars_of, push_str, starts_with, starts_with_chars, str_eq, string_of};

verus! {

/// The request methods the router tells apart.
#[derive(Debug, Clone, Copy, PartialEq, Eq)]
pub enum HttpMethod {
    Options,
    Get,
    Post,
    Other,
}

/// Where a request goes.
#[derive(Debug, Clone, Copy, PartialEq, Eq)]
pub enum Route {
    /// A CORS preflight request: answered with an empty 200.
    Preflight,
    /// `GET /`: answered with a short greeting.
    Index,
    /// `POST /payload`: a dump to parse and show.
    Payload,
    /// Anything else: 404.
    NotFound,
}

/// A response to send: status code, body and headers in order.
#[derive(Debug, Clone, PartialEq, Eq)]
pub struct ResponsePlan {
    pub status: u16,
    pub body: String,
    pub headers: Vec<(String, String)>,
}

pub const STATUS_OK: u16 = 200;

pub const STATUS_BAD_REQUEST: u16 = 400;

pub const STATUS_NOT_FOUND: u16 = 404;

/// The route of a request with the given method and path.
pub open spec fn spec_route(method: HttpMethod, path: Seq<char>) -> Route {
    if method == HttpMethod::Options {
        Route::Preflight
    } else if method == HttpMethod::Get && path == "/"@ {
        Route::Index
    } else if method == HttpMethod::Post && path == "/payload"@ {
        Route::Payload
    } else {
        Route::NotFound
    }
}

/// Picks the route of a request: every `OPTIONS` request is a preflight,
/// `GET /` and `POST /payload` have handlers, the rest is not found.
pub fn route(method: HttpMethod, path: &str) -> (r: Route)
    ensures
        r == spec_route(method, path@),
{
    match method {
        HttpMethod::Options => Route::Preflight,
        HttpMethod::Get => if str_eq(path, "/") {
            Route::Index
        } else {
            Route::NotFound
        },
        HttpMethod::Post => if str_eq(path, "/payload") {
            Route::Payload
        } else {
            Route::NotFound
        },
        HttpMethod::Other => Route::NotFound,
    }
}

/// `origin` names this machine: `http` or `https` on `localhost`,
/// `127.0.0.1` or `[::1]`, with or without a port.
pub open spec fn spec_is_localhost(origin: Seq<char>) -> bool {
    ||| origin == "http://localhost"@
    ||| starts_with(origin, "http://localhost:"@)
    ||| origin == "https://localhost"@
    ||| starts_with(origin, "https://localhost:"@)
    ||| origin == "http://127.0.0.1"@
    ||| starts_with(origin, "http://127.0.0.1:"@)
    ||| origin == "https://127.0.0.1"@
    ||| starts_with(origin, "https://127.0.0.1:"@)
    ||| origin == "http://[::1]"@
    ||| starts_with(origin, "http://[::1]:"@)
    ||| origin == "https://[::1]"@
    ||| starts_with(origin, "https://[::1]:"@)
}

fn origin_is(o: &[char], lit: &str) -> (b: bool)
    ensures
        b == (o@ == lit@),
{
    let l = chars_of(lit);
    crate::text::chars_eq(o, l.as_slice())
}

fn origin_starts(o: &[char], lit: &str) -> (b: bool)
    ensures
        b == starts_with(o@, lit@),
{
    let l = chars_of(lit);
    starts_with_chars(o, l.as_slice())
}

/// Whether a request's `Origin` header names this machine (see
/// [`spec_is_localhost`]).
pub fn is_localhost(origin: &str) -> (b: bool)
    ensures
        b == spec_is_localhost(origin@),
{
    let o = chars_of(origin);
    let o = o.as_slice();
    origin_is(o, "http://localhost") || origin_starts(o, "http://localhost:") || origin_is(
        o,
        "https://localhost",
    ) || origin_starts(o, "https://localhost:") || origin_is(o, "http://127.0.0.1")
        || origin_starts(o, "http://127.0.0.1:") || origin_is(o, "https://127.0.0.1")
        || origin_starts(o, "https://127.0.0.1:") || origin_is(o, "http://[::1]")
        || origin_starts(o, "http://[::1]:") || origin_is(o, "https://[::1]") || origin_starts(
        o,
        "https://[::1]:",
    )
}

/// Header names and values as character sequences.
pub open spec fn headers_view(h: Seq<(String, String)>) -> Seq<(Seq<char>, Seq<char>)> {
    h.map_values(|p: (String, String)| (p.0@, p.1@))
}

/// The headers every response carries.
pub open spec fn base_headers() -> Seq<(Seq<char>, Seq<char>)> {
    seq![
        ("Access-Control-Allow-Methods"@, "GET, POST, OPTIONS"@),
        ("Access-Control-Allow-Headers"@, "*"@),
        ("Access-Control-Max-Age"@, "86400"@),
        ("Vary"@, "Origin"@),
    ]
}

/// The headers of a response to a request from `origin`: the fixed CORS
/// headers, and `Access-Control-Allow-Origin` echoing the origin when it is
/// this machine.
pub open spec fn spec_headers(origin: Option<Seq<char>>) -> Seq<(Seq<char>, Seq<char>)> {
    match origin {
        Some(o) => if spec_is_localhost(o) {
            base_headers().push(("Access-Control-Allow-Origin"@, o))
        } else {
            base_headers()
        },
        None => base_headers(),
    }
}

/// A response names an allowed origin only when the request came from this
/// machine, and then it names exactly that origin; every response carries
/// the four fixed CORS headers first.
pub proof fn lemma_allow_origin_only_for_local_origins(origin: Option<Seq<char>>, value: Seq<char>)
    ensures
        spec_headers(origin).contains(("Access-Control-Allow-Origin"@, value)) <==> (origin
            == Some(value) && spec_is_localhost(value)),
        spec_headers(origin).take(4) == base_headers(),
{
    reveal_strlit("Access-Control-Allow-Origin");
    reveal_strlit("Access-Control-Allow-Methods");
    reveal_strlit("Access-Control-Allow-Headers");
    reveal_strlit("Access-Control-Max-Age");
    reveal_strlit("Vary");
    let h = spec_headers(origin);
    let b = base_headers();
    assert forall|i: int| 0 <= i < 4 implies b[i].0 != "Access-Control-Allow-Origin"@ by {
        assert(b[i].0.len() != "Access-Control-Allow-Origin"@.len());
    }
    if h.contains(("Access-Control-Allow-Origin"@, value)) {
        let i = choose|i: int| 0 <= i < h.len() && h[i] == ("Access-Control-Allow-Origin"@, value);
        assert(i >= 4);
    }
    match origin {
        Some(o) => {
            if spec_is_localhost(o) {
                assert(h[4] == ("Access-Control-Allow-Origin"@, o));
            }
        },
        None => {},
    }
    assert(h.take(4) =~= b);
}

fn header(name: &str, value: &str) -> (h: (String, String))
    ensures
        h.0@ == name@,
        h.1@ == value@,
{
    let n = chars_of(name);
    let v = chars_of(value);
    (string_of(n.as_slice()), string_of(v.as_slice()))
}

/// Builds a response with the given body and status, carrying the CORS
/// headers for `origin` (see [`spec_headers`]).
pub fn respond(s: String, status_code: u16, origin: Option<String>) -> (r: ResponsePlan)
    ensures
        r.status == status_code,
        r.body@ == s@,
        headers_view(r.headers@) == spec_headers(
            match origin {
                Some(o) => Some(o@),
                None => None,
            },
        ),
{
    let mut headers: Vec<(String, String)> = Vec::new();
    headers.push(header("Access-Control-Allow-Methods", "GET, POST, OPTIONS"));
    headers.push(header("Access-Control-Allow-Headers", "*"));
    headers.push(header("Access-Control-Max-Age", "86400"));
    headers.push(header("Vary", "Origin"));
    assert(headers_view(headers@) =~= base_headers());
    match origin {
        Some(origin_val) => {
            if is_localhost(origin_val.as_str()) {
                let name = header("Access-Control-Allow-Origin", "");
                let ghost before = headers@;
                headers.push((name.0, origin_val));
                assert(headers@ == before.push(headers@.last()));
                assert(headers_view(headers@) =~= base_headers().push(
                    ("Access-Control-Allow-Origin"@, headers@.last().1@),
                ));
            }
        },
        None => {},
    }
    ResponsePlan { status: status_code, body: s, headers }
}

/// What a routed request is answered with, for the routes that need no
/// further work.
pub open spec fn spec_route_reply(r: Route) -> (u16, Seq<char>) {
    match r {
        Route::Preflight => (STATUS_OK, ""@),
        Route::Index => (STATUS_OK, "Quo is listening"@),
        _ => (STATUS_NOT_FOUND, "This route does not exist for Quo"@),
    }
}

/// Answers a request routed to `r` (other than [`Route::Payload`], which
/// needs the request's body).
pub fn route_reply(r: Route, origin: Option<String>) -> (p: ResponsePlan)
    requires
        r != Route::Payload,
    ensures
        p.status == spec_route_reply(r).0,
        p.body@ == spec_route_reply(r).1,
        headers_view(p.headers@) == spec_headers(
            match origin {
                Some(o) => Some(o@),
                None => None,
            },
        ),
{
    let (status, text) = match r {
        Route::Preflight => (STATUS_OK, ""),
        Route::Index => (STATUS_OK, "Quo is listening"),
        _ => (STATUS_NOT_FOUND, "This route does not exist for Quo"),
    };
    let body = chars_of(text);
    respond(string_of(body.as_slice()), status, origin)
}

// ---------------------------------------------------------------------------
// Posted payloads
// ---------------------------------------------------------------------------

/// What reading a request's body gave.
#[derive(Debug, Clone, PartialEq, Eq)]
pub enum BodyRead {
    /// Reading failed; the error's text.
    Failed(String),
    /// The body's bytes.
    Read(Vec<u8>),
}

/// What to do after the body was read.
#[derive(Debug, Clone, PartialEq, Eq)]
pub enum PayloadStep {
    /// Answer right away.
    Reply(ResponsePlan),
    /// Parse these bytes as a payload, then call [`on_payload_parsed`].
    Parse(Vec<u8>),
}

/// The text of a 400 answer to a body that could not be read.
pub open spec fn unreadable_message(err: Seq<char>) -> Seq<char> {
    "Unparseable payload: "@ + err
}

/// The text of a 400 answer to a body that is not a payload.
pub open spec fn unparseable_message(err: Seq<char>) -> Seq<char> {
    "Could not parse payload into Quo Payload: "@ + err
}

/// Decides what follows reading a posted body: an unreadable body is
/// answered `400 Unparseable payload: <error>`, an empty one
/// `400 Empty payload`, and any other is handed on for parsing unchanged.
pub fn on_body_read(read: BodyRead, origin: Option<String>) -> (step: PayloadStep)
    ensures
        match read {
            BodyRead::Failed(e) => step matches PayloadStep::Reply(p) && p.status == STATUS_BAD_REQUEST
                && p.body@ == unreadable_message(e@),
            BodyRead::Read(bytes) => if bytes@.len() == 0 {
                step matches PayloadStep::Reply(p) && p.status == STATUS_BAD_REQUEST && p.body@
                    == "Empty payload"@
            } else {
                step == PayloadStep::Parse(bytes)
            },
        },
        step matches PayloadStep::Reply(p) ==> headers_view(p.headers@) == spec_headers(
            match origin {
                Some(o) => Some(o@),
                None => None,
            },
        ),
{
    match read {
        BodyRead::Failed(e) => {
            let mut msg: Vec<char> = Vec::new();
            push_str(&mut msg, "Unparseable payload: ");
            push_str(&mut msg, e.as_str());
            PayloadStep::Reply(respond(string_of(msg.as_slice()), STATUS_BAD_REQUEST, origin))
        },
        BodyRead::Read(bytes) => {
            if bytes.len() == 0 {
                let msg = chars_of("Empty payload");
                PayloadStep::Reply(respond(string_of(msg.as_slice()), STATUS_BAD_REQUEST, origin))
            } else {
                PayloadStep::Parse(bytes)
            }
        },
    }
}

/// Answers a posted payload once parsing was tried: `400 Could not parse
/// payload into Quo Payload: <error>` when it failed, `200 OK` when it
/// succeeded (and the payload was passed on to the interface).
pub fn on_payload_parsed(parsed: Result<(), String>, origin: Option<String>) -> (p: ResponsePlan)
    ensures
        match parsed {
            Err(e) => p.status == STATUS_BAD_REQUEST && p.body@ == unparseable_message(e@),
            Ok(()) => p.status == STATUS_OK && p.body@ == "OK"@,
        },
        headers_view(p.headers@) == spec_headers(
            match origin {
                Some(o) => Some(o@),
                None => None,
            },
        ),
{
    match parsed {
        Err(e) => {
            let mut msg: Vec<char> = Vec::new();
            push_str(&mut msg, "Could not parse payload into Quo Payload: ");
            push_str(&mut msg, e.as_str());
            respond(string_of(msg.as_slice()), STATUS_BAD_REQUEST, origin)
        },
        Ok(()) => {
            let msg = chars_of("OK");
            respond(string_of(msg.as_slice()), STATUS_OK, origin)
        },
    }
}

/// A clear-entries request is always answered `200 OK`.
pub fn clear_entries_reply(origin: Option<String>) -> (p: ResponsePlan)
    ensures
        p.status == STATUS_OK,
        p.body@ == "OK"@,
        headers_view(p.headers@) == spec_headers(
            match origin {
                Some(o) => Some(o@),
                None => None,
            },
        ),
{
    on_payload_parsed(Ok(()), origin)
}

/// What the desktop side remembers of its server: the connection event last
/// recorded.  The application shares it between threads behind a lock.
pub struct ServerState(pub ConnectionEstablishedEvent);

impl ServerState {
    /// The state before the server listens: no host, port 0, no success.
    pub fn new() -> (s: Self)
        ensures
            s.0.host@ == Seq::<char>::empty(),
            s.0.port == 0,
            !s.0.success,
    {
        ServerState(ConnectionEstablishedEvent { host: String::new(), port: 0, success: false })
    }

    /// Records the event of a server that now listens (or failed to).
    pub fn record(&mut self, event: ConnectionEstablishedEvent)
        ensures
            final(self).0 == event,
    {
        self.0 = event;
    }

    /// A copy of the event last recorded.
    pub fn connection_info(&self) -> (e: ConnectionEstablishedEvent)
        ensures
            e.host@ == self.0.host@,
            e.port == self.0.port,
            e.success == self.0.success,
    {
        let h = chars_of(self.0.host.as_str());
        ConnectionEstablishedEvent { host: string_of(h.as_slice()), port: self.0.port, success: self.0.success }
    }
}

} // verus!
