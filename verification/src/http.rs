use vstd::prelude::*;

use vstd::string::StrSliceExecFns;

use crate::error::{ServerError, ServerResult};

verus! {

// ---------------------------------------------------------------------------
// Status codes
// ---------------------------------------------------------------------------
/// HTTP status codes emitted by the server.
#[derive(Debug, Clone, Copy, PartialEq, Eq, Structural)]
pub enum Status {
    Continue,
    SwitchingProtocols,
    Okay,
    Created,
    Accepted,
    NoContent,
    MovedPermanently,
    Found,
    NotModified,
    BadRequest,
    Unauthorized,
    Forbidden,
    NotFound,
    MethodNotAllowed,
    RequestTimeout,
    PayloadTooLarge,
    InternalServerError,
    NotImplemented,
    BadGateway,
    ServiceUnavailable,
}

/// The numeric code of a status.
pub open spec fn spec_status_code(s: Status) -> int {
    match s {
        Status::Continue => 100,
        Status::SwitchingProtocols => 101,
        Status::Okay => 200,
        Status::Created => 201,
        Status::Accepted => 202,
        Status::NoContent => 204,
        Status::MovedPermanently => 301,
        Status::Found => 302,
        Status::NotModified => 304,
        Status::BadRequest => 400,
        Status::Unauthorized => 401,
        Status::Forbidden => 403,
        Status::NotFound => 404,
        Status::MethodNotAllowed => 405,
        Status::RequestTimeout => 408,
        Status::PayloadTooLarge => 413,
        Status::InternalServerError => 500,
        Status::NotImplemented => 501,
        Status::BadGateway => 502,
        Status::ServiceUnavailable => 503,
    }
}

/// The canonical reason phrase of a status.
pub open spec fn spec_status_reason(s: Status) -> Seq<char> {
    match s {
        Status::Continue => "Continue"@,
        Status::SwitchingProtocols => "Switching Protocols"@,
        Status::Okay => "OK"@,
        Status::Created => "Created"@,
        Status::Accepted => "Accepted"@,
        Status::NoContent => "No Content"@,
        Status::MovedPermanently => "Moved Permanently"@,
        Status::Found => "Found"@,
        Status::NotModified => "Not Modified"@,
        Status::BadRequest => "Bad Request"@,
        Status::Unauthorized => "Unauthorized"@,
        Status::Forbidden => "Forbidden"@,
        Status::NotFound => "Not Found"@,
        Status::MethodNotAllowed => "Method Not Allowed"@,
        Status::RequestTimeout => "Request Timeout"@,
        Status::PayloadTooLarge => "Payload Too Large"@,
        Status::InternalServerError => "Internal Server Error"@,
        Status::NotImplemented => "Not Implemented"@,
        Status::BadGateway => "Bad Gateway"@,
        Status::ServiceUnavailable => "Service Unavailable"@,
    }
}

impl Status {
    /// The numeric status code.
    pub fn code(&self) -> (r: u16)
        ensures
            r as int == spec_status_code(*self),
    {
        match *self {
            Status::Continue => 100,
            Status::SwitchingProtocols => 101,
            Status::Okay => 200,
            Status::Created => 201,
            Status::Accepted => 202,
            Status::NoContent => 204,
            Status::MovedPermanently => 301,
            Status::Found => 302,
            Status::NotModified => 304,
            Status::BadRequest => 400,
            Status::Unauthorized => 401,
            Status::Forbidden => 403,
            Status::NotFound => 404,
            Status::MethodNotAllowed => 405,
            Status::RequestTimeout => 408,
            Status::PayloadTooLarge => 413,
            Status::InternalServerError => 500,
            Status::NotImplemented => 501,
            Status::BadGateway => 502,
            Status::ServiceUnavailable => 503,
        }
    }

    /// The text description for this status code.
    pub fn as_str(&self) -> (r: &'static str)
        ensures
            r@ == spec_status_reason(*self),
    {
        match *self {
            Status::Continue => "Continue",
            Status::SwitchingProtocols => "Switching Protocols",
            Status::Okay => "OK",
            Status::Created => "Created",
            Status::Accepted => "Accepted",
            Status::NoContent => "No Content",
            Status::MovedPermanently => "Moved Permanently",
            Status::Found => "Found",
            Status::NotModified => "Not Modified",
            Status::BadRequest => "Bad Request",
            Status::Unauthorized => "Unauthorized",
            Status::Forbidden => "Forbidden",
            Status::NotFound => "Not Found",
            Status::MethodNotAllowed => "Method Not Allowed",
            Status::RequestTimeout => "Request Timeout",
            Status::PayloadTooLarge => "Payload Too Large",
            Status::InternalServerError => "Internal Server Error",
            Status::NotImplemented => "Not Implemented",
            Status::BadGateway => "Bad Gateway",
            Status::ServiceUnavailable => "Service Unavailable",
        }
    }
}

// ---------------------------------------------------------------------------
// Methods
// ---------------------------------------------------------------------------
/// HTTP request methods.
#[derive(Debug, Clone, Copy, PartialEq, Eq, Structural)]
pub enum Method {
    Get,
    Head,
    Post,
    Put,
    Delete,
    Options,
    Trace,
    Connect,
    Patch,
}

/// The wire name of a method.
pub open spec fn spec_method_chars(m: Method) -> Seq<char> {
    match m {
        Method::Get => "GET"@,
        Method::Head => "HEAD"@,
        Method::Post => "POST"@,
        Method::Put => "PUT"@,
        Method::Delete => "DELETE"@,
        Method::Options => "OPTIONS"@,
        Method::Trace => "TRACE"@,
        Method::Connect => "CONNECT"@,
        Method::Patch => "PATCH"@,
    }
}

/// Which method a token names, if any.
pub open spec fn method_of_chars(v: Seq<char>) -> Option<Method> {
    if v == "GET"@ {
        Some(Method::Get)
    } else if v == "HEAD"@ {
        Some(Method::Head)
    } else if v == "POST"@ {
        Some(Method::Post)
    } else if v == "PUT"@ {
        Some(Method::Put)
    } else if v == "DELETE"@ {
        Some(Method::Delete)
    } else if v == "OPTIONS"@ {
        Some(Method::Options)
    } else if v == "TRACE"@ {
        Some(Method::Trace)
    } else if v == "CONNECT"@ {
        Some(Method::Connect)
    } else if v == "PATCH"@ {
        Some(Method::Patch)
    } else {
        None
    }
}

/// Whether two strings hold the same characters.
fn str_is(s: &str, t: &str) -> (r: bool)
    ensures
        r == (s@ == t@),
{
    let ls = s.unicode_len();
    let lt = t.unicode_len();
    if ls != lt {
        return false;
    }
    let mut i: usize = 0;
    #[verifier::loop_isolation(false)]
    while i < ls
        invariant
            0 <= i <= ls,
            forall|j: int| 0 <= j < i ==> s@[j] == t@[j],
        decreases ls - i,
    {
        if s.get_char(i) != t.get_char(i) {
            return false;
        }
        i += 1;
    }
    proof {
        assert(s@ =~= t@);
    }
    true
}

impl Method {
    /// Parse a method token; an unknown token is an `HttpParse` error.
    pub fn from_str(s: &str) -> (r: ServerResult<Method>)
        ensures
            match method_of_chars(s@) {
                Some(m) => r matches Ok(mm) && mm == m,
                None => r matches Err(e) && e is HttpParse,
            },
    {
        if str_is(s, "GET") {
            Ok(Method::Get)
        } else if str_is(s, "HEAD") {
            Ok(Method::Head)
        } else if str_is(s, "POST") {
            Ok(Method::Post)
        } else if str_is(s, "PUT") {
            Ok(Method::Put)
        } else if str_is(s, "DELETE") {
            Ok(Method::Delete)
        } else if str_is(s, "OPTIONS") {
            Ok(Method::Options)
        } else if str_is(s, "TRACE") {
            Ok(Method::Trace)
        } else if str_is(s, "CONNECT") {
            Ok(Method::Connect)
        } else if str_is(s, "PATCH") {
            Ok(Method::Patch)
        } else {
            Err(ServerError::HttpParse("Invalid method".to_owned()))
        }
    }

    /// The wire name of the method.
    pub fn as_str(&self) -> (r: &'static str)
        ensures
            r@ == spec_method_chars(*self),
    {
        match *self {
            Method::Get => "GET",
            Method::Head => "HEAD",
            Method::Post => "POST",
            Method::Put => "PUT",
            Method::Delete => "DELETE",
            Method::Options => "OPTIONS",
            Method::Trace => "TRACE",
            Method::Connect => "CONNECT",
            Method::Patch => "PATCH",
        }
    }
}

/// Method round-trip law: every supported method parses back from its own
/// wire name, so `Method::from_str(m.as_str())` returns `m` again.
pub proof fn lemma_method_round_trip(m: Method)
    ensures
        method_of_chars(spec_method_chars(m)) == Some(m),
{
    reveal_strlit("GET");
    reveal_strlit("HEAD");
    reveal_strlit("POST");
    reveal_strlit("PUT");
    reveal_strlit("DELETE");
    reveal_strlit("OPTIONS");
    reveal_strlit("TRACE");
    reveal_strlit("CONNECT");
    reveal_strlit("PATCH");
    assert("GET"@.len() == 3);
    assert("HEAD"@.len() == 4);
    assert("POST"@.len() == 4);
    assert("PUT"@.len() == 3);
    assert("DELETE"@.len() == 6);
    assert("OPTIONS"@.len() == 7);
    assert("TRACE"@.len() == 5);
    assert("CONNECT"@.len() == 7);
    assert("PATCH"@.len() == 5);
    assert("HEAD"@[0] == 'H');
    assert("POST"@[0] == 'P');
    assert("GET"@[0] == 'G');
    assert("PUT"@[0] == 'P');
    assert("PUT"@[1] == 'U');
    assert("POST"@[1] == 'O');
    assert("OPTIONS"@[0] == 'O');
    assert("CONNECT"@[0] == 'C');
    assert("TRACE"@[0] == 'T');
    assert("PATCH"@[0] == 'P');
}

// ---------------------------------------------------------------------------
// Header maps
// ---------------------------------------------------------------------------
/// First value stored under `key`, scanning in insertion order.
pub open spec fn map_find(s: Seq<(Seq<char>, Seq<char>)>, key: Seq<char>) -> Option<Seq<char>>
    decreases s.len(),
{
    if s.len() == 0 {
        None
    } else if s[0].0 == key {
        Some(s[0].1)
    } else {
        map_find(s.drop_first(), key)
    }
}

/// Store `val` under `key`: the first entry with that key is replaced in
/// place, or a new entry is appended.
pub open spec fn map_set(
    s: Seq<(Seq<char>, Seq<char>)>,
    key: Seq<char>,
    val: Seq<char>,
) -> Seq<(Seq<char>, Seq<char>)>
    decreases s.len(),
{
    if s.len() == 0 {
        seq![(key, val)]
    } else if s[0].0 == key {
        seq![(key, val)] + s.drop_first()
    } else {
        seq![s[0]] + map_set(s.drop_first(), key, val)
    }
}

proof fn lemma_map_set_found(
    s: Seq<(Seq<char>, Seq<char>)>,
    key: Seq<char>,
    val: Seq<char>,
    i: int,
)
    requires
        0 <= i < s.len(),
        s[i].0 == key,
        forall|j: int| 0 <= j < i ==> s[j].0 != key,
    ensures
        map_set(s, key, val) == s.update(i, (key, val)),
    decreases i,
{
    if i == 0 {
        assert(map_set(s, key, val) =~= s.update(0, (key, val)));
    } else {
        let t = s.drop_first();
        lemma_map_set_found(t, key, val, i - 1);
        assert(map_set(s, key, val) =~= s.update(i, (key, val)));
    }
}

proof fn lemma_map_set_missing(s: Seq<(Seq<char>, Seq<char>)>, key: Seq<char>, val: Seq<char>)
    requires
        forall|j: int| 0 <= j < s.len() ==> s[j].0 != key,
    ensures
        map_set(s, key, val) == s.push((key, val)),
    decreases s.len(),
{
    if s.len() == 0 {
        assert(map_set(s, key, val) =~= s.push((key, val)));
    } else {
        lemma_map_set_missing(s.drop_first(), key, val);
        assert(map_set(s, key, val) =~= s.push((key, val)));
    }
}

proof fn lemma_map_find_found(s: Seq<(Seq<char>, Seq<char>)>, key: Seq<char>, i: int)
    requires
        0 <= i < s.len(),
        s[i].0 == key,
        forall|j: int| 0 <= j < i ==> s[j].0 != key,
    ensures
        map_find(s, key) == Some(s[i].1),
    decreases i,
{
    if i > 0 {
        lemma_map_find_found(s.drop_first(), key, i - 1);
    }
}

proof fn lemma_map_find_missing(s: Seq<(Seq<char>, Seq<char>)>, key: Seq<char>)
    requires
        forall|j: int| 0 <= j < s.len() ==> s[j].0 != key,
    ensures
        map_find(s, key) is None,
    decreases s.len(),
{
    if s.len() > 0 {
        lemma_map_find_missing(s.drop_first(), key);
    }
}

/// A header map: name/value pairs in insertion order, one entry per name.
pub struct HeaderMap {
    entries: Vec<(String, String)>,
}

impl View for HeaderMap {
    type V = Seq<(Seq<char>, Seq<char>)>;

    closed spec fn view(&self) -> Seq<(Seq<char>, Seq<char>)> {
        Seq::new(self.entries@.len() as nat, |i: int| (self.entries@[i].0@, self.entries@[i].1@))
    }
}

impl HeaderMap {
    /// An empty map.
    pub fn new() -> (r: HeaderMap)
        ensures
            r@ == Seq::<(Seq<char>, Seq<char>)>::empty(),
    {
        let r = HeaderMap { entries: Vec::new() };
        proof {
            assert(r@ =~= Seq::<(Seq<char>, Seq<char>)>::empty());
        }
        r
    }

    /// Store `value` under `name`, replacing the first entry with that name
    /// or appending a new one.
    pub fn insert(&mut self, name: String, value: String)
        ensures
            final(self)@ == map_set(old(self)@, name@, value@),
    {
        let n = self.entries.len();
        let mut i: usize = 0;
        #[verifier::loop_isolation(false)]
        while i < n
            invariant
                0 <= i <= n,
                n == self.entries@.len(),
                self@ == old(self)@,
                forall|j: int| 0 <= j < i ==> old(self)@[j].0 != name@,
            decreases n - i,
        {
            if self.entries[i].0 == name {
                proof {
                    lemma_map_set_found(old(self)@, name@, value@, i as int);
                }
                self.entries[i] = (name, value);
                proof {
                    assert(self@ =~= old(self)@.update(i as int, (name@, value@)));
                }
                return ;
            }
            i += 1;
        }
        proof {
            lemma_map_set_missing(old(self)@, name@, value@);
        }
        self.entries.push((name, value));
        proof {
            assert(self@ =~= old(self)@.push((name@, value@)));
        }
    }

    /// The value stored under `name`, if any.
    pub fn get(&self, name: &str) -> (r: Option<&String>)
        ensures
            match r {
                Some(v) => map_find(self@, name@) == Some(v@),
                None => map_find(self@, name@) is None,
            },
    {
        let key = name.to_owned();
        let n = self.entries.len();
        let mut i: usize = 0;
        #[verifier::loop_isolation(false)]
        while i < n
            invariant
                0 <= i <= n,
                n == self.entries@.len(),
                key@ == name@,
                forall|j: int| 0 <= j < i ==> self@[j].0 != name@,
            decreases n - i,
        {
            if self.entries[i].0 == key {
                proof {
                    lemma_map_find_found(self@, name@, i as int);
                }
                return Some(&self.entries[i].1);
            }
            i += 1;
        }
        proof {
            lemma_map_find_missing(self@, name@);
        }
        None
    }

    /// The number of entries.
    pub fn len(&self) -> (r: usize)
        ensures
            r == self@.len(),
    {
        self.entries.len()
    }

    /// The entry at a position, in insertion order.
    pub fn entry_at(&self, i: usize) -> (r: &(String, String))
        requires
            i < self@.len(),
        ensures
            r.0@ == self@[i as int].0,
            r.1@ == self@[i as int].1,
    {
        &self.entries[i]
    }

    /// Remove every entry.
    pub fn clear(&mut self)
        ensures
            final(self)@ == Seq::<(Seq<char>, Seq<char>)>::empty(),
    {
        self.entries.clear();
        proof {
            assert(self@ =~= Seq::<(Seq<char>, Seq<char>)>::empty());
        }
    }
}

// ---------------------------------------------------------------------------
// The incremental request parser
// ---------------------------------------------------------------------------
/// Parser phases: request line, then headers, then body, then complete.
#[derive(Debug, Clone, Copy, PartialEq, Eq, Structural)]
pub enum HttpParserState {
    RequestLine,
    Headers,
    Body,
    Complete,
}

/// Mathematical model of the parser's accumulated state.
#[verifier::ext_equal]
pub struct ParserModel {
    pub state: HttpParserState,
    pub method: Option<Method>,
    pub uri: Option<Seq<char>>,
    pub version: Option<Seq<char>>,
    pub headers: Seq<(Seq<char>, Seq<char>)>,
    pub body: Seq<u8>,
    pub content_length: int,
}

/// What `reset` leaves behind, whatever the parser held: the initial model.
pub open spec fn spec_reset(m: ParserModel) -> ParserModel {
    initial_model()
}

/// A freshly created or reset parser.
pub open spec fn initial_model() -> ParserModel {
    ParserModel {
        state: HttpParserState::RequestLine,
        method: None,
        uri: None,
        version: None,
        headers: Seq::empty(),
        body: Seq::empty(),
        content_length: 0,
    }
}

/// What parsing the request line yields: exactly three whitespace-separated
/// tokens, a known method, and tokens that decode from UTF-8.
pub open spec fn spec_request_line(line: Seq<u8>) -> Option<(Method, Seq<char>, Seq<char>)> {
    let toks = crate::text::spec_ws_tokens(line);
    if toks.len() != 3 {
        None
    } else if !vstd::utf8::valid_utf8(toks[0]) {
        None
    } else {
        match method_of_chars(vstd::utf8::decode_utf8(toks[0])) {
            Some(m) => if vstd::utf8::valid_utf8(toks[1]) && vstd::utf8::valid_utf8(toks[2]) {
                Some(
                    (m, vstd::utf8::decode_utf8(toks[1]), vstd::utf8::decode_utf8(toks[2])),
                )
            } else {
                None
            },
            None => None,
        }
    }
}

/// What one header line yields: a colon, the name trimmed and ASCII-lowered,
/// the value trimmed, both decoding from UTF-8.
pub open spec fn spec_header_line(line: Seq<u8>) -> Option<(Seq<char>, Seq<char>)> {
    match crate::text::spec_find_byte(line, 58u8) {
        Some(ci) => {
            let name_b = crate::text::lower_bytes(crate::text::spec_trim(line.take(ci)));
            let val_b = crate::text::spec_trim(line.skip(ci + 1));
            if vstd::utf8::valid_utf8(name_b) && vstd::utf8::valid_utf8(val_b) {
                Some((vstd::utf8::decode_utf8(name_b), vstd::utf8::decode_utf8(val_b)))
            } else {
                None
            }
        },
        None => None,
    }
}

/// Fold the header lines into the map, stopping at the first bad line;
/// blank lines are skipped.
pub open spec fn spec_fold_headers(
    h: Seq<(Seq<char>, Seq<char>)>,
    lines: Seq<Seq<u8>>,
) -> (Seq<(Seq<char>, Seq<char>)>, bool)
    decreases lines.len(),
{
    if lines.len() == 0 {
        (h, true)
    } else if lines[0].len() == 0 {
        spec_fold_headers(h, lines.drop_first())
    } else {
        match spec_header_line(lines[0]) {
            Some(kv) => spec_fold_headers(map_set(h, kv.0, kv.1), lines.drop_first()),
            None => (h, false),
        }
    }
}

/// The Content-Length a header map announces: the parsed value of the
/// `content-length` entry, 0 when it does not parse, or `current` when the
/// entry is absent.
pub open spec fn spec_content_length(h: Seq<(Seq<char>, Seq<char>)>, current: int) -> int {
    match map_find(h, "content-length"@) {
        Some(v) => match crate::text::spec_parse_usize(v) {
            Some(n) => n,
            None => 0,
        },
        None => current,
    }
}

/// One `parse` call over a chunk: the new parser model, and whether the call
/// succeeds. A complete parser resets first; the chunk must be UTF-8; a
/// chunk holding the head terminator drives the request-line and header
/// phases and takes in whatever body bytes follow; a chunk without the
/// terminator extends the body only when the parser is already in the body
/// phase.
pub open spec fn spec_parse_step(m: ParserModel, chunk: Seq<u8>) -> (ParserModel, bool) {
    let m0 = if m.state == HttpParserState::Complete {
        initial_model()
    } else {
        m
    };
    if !vstd::utf8::valid_utf8(chunk) {
        (m0, false)
    } else {
        match crate::text::spec_find_terminator(chunk) {
            Some(hend) => spec_parse_head(m0, chunk, hend),
            None => {
                if m0.state == HttpParserState::Body {
                    spec_take_body(m0, m0.body + chunk, m0.content_length)
                } else {
                    (m0, true)
                }
            },
        }
    }
}

/// The head phases of a `parse` call, once the terminator is at `hend`.
pub open spec fn spec_parse_head(m0: ParserModel, chunk: Seq<u8>, hend: int) -> (
    ParserModel,
    bool,
) {
    let lines = crate::text::spec_split_crlf(chunk.take(hend));
    let rl = if m0.state == HttpParserState::RequestLine {
        match spec_request_line(lines[0]) {
            Some(muv) => Some(
                ParserModel {
                    state: HttpParserState::Headers,
                    method: Some(muv.0),
                    uri: Some(muv.1),
                    version: Some(muv.2),
                    ..m0
                },
            ),
            None => None,
        }
    } else {
        Some(m0)
    };
    match rl {
        None => (m0, false),
        Some(m1) => {
            if m1.state == HttpParserState::Headers {
                let folded = spec_fold_headers(m1.headers, lines.drop_first());
                let m2 = ParserModel { headers: folded.0, ..m1 };
                if !folded.1 {
                    (m2, false)
                } else {
                    let cl = spec_content_length(folded.0, m2.content_length);
                    let body_start = hend + 4;
                    if cl > 0 && body_start < chunk.len() {
                        spec_take_body(
                            ParserModel { content_length: cl, ..m2 },
                            m2.body + chunk.skip(body_start),
                            cl,
                        )
                    } else if cl == 0 {
                        (
                            ParserModel {
                                state: HttpParserState::Complete,
                                content_length: cl,
                                ..m2
                            },
                            true,
                        )
                    } else {
                        (
                            ParserModel { state: HttpParserState::Body, content_length: cl, ..m2 },
                            true,
                        )
                    }
                }
            } else {
                (m1, true)
            }
        },
    }
}

/// Absorb body bytes: complete (truncating any excess) once the expected
/// length is reached, otherwise stay in the body phase.
pub open spec fn spec_take_body(m: ParserModel, body: Seq<u8>, cl: int) -> (ParserModel, bool) {
    if body.len() >= cl {
        (
            ParserModel {
                state: HttpParserState::Complete,
                body: body.take(cl),
                content_length: cl,
                ..m
            },
            true,
        )
    } else {
        (
            ParserModel { state: HttpParserState::Body, body: body, content_length: cl, ..m },
            true,
        )
    }
}

impl Clone for HeaderMap {
    /// A clone holds the same entries.
    fn clone(&self) -> (r: HeaderMap)
        ensures
            r@ == self@,
    {
        let n = self.entries.len();
        let mut entries: Vec<(String, String)> = Vec::new();
        let mut i: usize = 0;
        while i < n
            invariant
                0 <= i <= n,
                n == self.entries@.len(),
                entries@.len() == i,
                forall|j: int|
                    0 <= j < i ==> (#[trigger] entries@[j]).0@ == self@[j].0 && entries@[j].1@
                        == self@[j].1,
            decreases n - i,
        {
            let pair = &self.entries[i];
            entries.push((pair.0.clone(), pair.1.clone()));
            i += 1;
        }
        let r = HeaderMap { entries };
        proof {
            assert(r@ =~= self@);
        }
        r
    }
}

/// A resumable HTTP/1.1 request parser: it is fed byte chunks and retains
/// its partial state across calls.
pub struct HttpParser {
    pub state: HttpParserState,
    pub method: Option<Method>,
    pub uri: Option<String>,
    pub version: Option<String>,
    pub headers: HeaderMap,
    pub body: Vec<u8>,
    pub content_length: usize,
}

impl View for HttpParser {
    type V = ParserModel;

    open spec fn view(&self) -> ParserModel {
        ParserModel {
            state: self.state,
            method: self.method,
            uri: self.uri.deep_view(),
            version: self.version.deep_view(),
            headers: self.headers@,
            body: self.body@,
            content_length: self.content_length as int,
        }
    }
}

impl HttpParser {
    /// A fresh parser, waiting for a request line.
    pub fn new() -> (r: HttpParser)
        ensures
            r@ == initial_model(),
    {
        let r = HttpParser {
            state: HttpParserState::RequestLine,
            method: None,
            uri: None,
            version: None,
            headers: HeaderMap::new(),
            body: Vec::new(),
            content_length: 0,
        };
        proof {
            assert(r@ =~~= initial_model());
        }
        r
    }

    /// Whether a full request has been accumulated.
    pub fn is_complete(&self) -> (r: bool)
        ensures
            r == (self@.state == HttpParserState::Complete),
    {
        self.state == HttpParserState::Complete
    }

    /// Return the parser to its initial state for reuse.
    pub fn reset(&mut self)
        ensures
            final(self)@ == spec_reset(old(self)@),
            final(self)@ == initial_model(),
    {
        self.state = HttpParserState::RequestLine;
        self.method = None;
        self.uri = None;
        self.version = None;
        self.headers.clear();
        self.body.clear();
        self.content_length = 0;
        proof {
            assert(self@ =~~= initial_model());
        }
    }

    /// Parse the request line: exactly three whitespace-separated tokens,
    /// of which the first names a method; the URI and version are kept as
    /// text.
    fn apply_request_line(&mut self, line: &Vec<u8>) -> (r: ServerResult<()>)
        requires
            old(self)@.state == HttpParserState::RequestLine,
        ensures
            match spec_request_line(line@) {
                Some(muv) => (r matches Ok(u)) && final(self)@ == (ParserModel {
                    state: HttpParserState::Headers,
                    method: Some(muv.0),
                    uri: Some(muv.1),
                    version: Some(muv.2),
                    ..old(self)@
                }),
                None => (r matches Err(e) && e is HttpParse) && final(self)@ == old(self)@,
            },
    {
        let ghost toks_m = crate::text::spec_ws_tokens(line@);
        let toks = crate::text::ws_tokens(line.as_slice());
        proof {
            assert(toks.deep_view() == toks_m);
            assert(toks@.len() == toks_m.len());
        }
        if toks.len() != 3 {
            proof {
                assert(spec_request_line(line@) is None);
            }
            return Err(ServerError::HttpParse("Invalid request line".to_owned()));
        }
        let tok0: &Vec<u8> = &toks[0];
        proof {
            assert(tok0@ =~= toks.deep_view()[0]);
        }
        let method_str = match crate::text::bytes_to_string(tok0.as_slice()) {
            Some(s) => s,
            None => {
                proof {
                    assert(!vstd::utf8::valid_utf8(toks_m[0]));
                    assert(spec_request_line(line@) is None);
                }
                return Err(ServerError::HttpParse("Invalid request line".to_owned()));
            },
        };
        proof {
            assert(method_str@ == vstd::utf8::decode_utf8(toks_m[0]));
        }
        let method = match Method::from_str(method_str.as_str()) {
            Ok(m) => m,
            Err(e) => {
                proof {
                    assert(method_of_chars(vstd::utf8::decode_utf8(toks_m[0])) is None);
                    assert(spec_request_line(line@) is None);
                }
                return Err(e);
            },
        };
        proof {
            assert(method_of_chars(vstd::utf8::decode_utf8(toks_m[0])) == Some(method));
        }
        let tok1: &Vec<u8> = &toks[1];
        proof {
            assert(tok1@ =~= toks.deep_view()[1]);
        }
        let uri_s = match crate::text::bytes_to_string(tok1.as_slice()) {
            Some(s) => s,
            None => {
                proof {
                    assert(!vstd::utf8::valid_utf8(toks_m[1]));
                    assert(spec_request_line(line@) is None);
                }
                return Err(ServerError::HttpParse("Invalid request line".to_owned()));
            },
        };
        let tok2: &Vec<u8> = &toks[2];
        proof {
            assert(tok2@ =~= toks.deep_view()[2]);
        }
        let ver_s = match crate::text::bytes_to_string(tok2.as_slice()) {
            Some(s) => s,
            None => {
                proof {
                    assert(!vstd::utf8::valid_utf8(toks_m[2]));
                    assert(spec_request_line(line@) is None);
                }
                return Err(ServerError::HttpParse("Invalid request line".to_owned()));
            },
        };
        self.method = Some(method);
        self.uri = Some(uri_s);
        self.version = Some(ver_s);
        self.state = HttpParserState::Headers;
        proof {
            assert(spec_request_line(line@) == Some((method, uri_s@, ver_s@)));
            let muv = spec_request_line(line@).unwrap();
            assert(self@ =~~= (ParserModel {
                state: HttpParserState::Headers,
                method: Some(muv.0),
                uri: Some(muv.1),
                version: Some(muv.2),
                ..old(self)@
            }));
        }
        Ok(())
    }

    /// Parse one header line `Name: Value` into the map: the name is
    /// trimmed and ASCII-lowered, the value trimmed. A line without a colon
    /// is an `HttpParse` error.
    fn apply_header_line(&mut self, line: &Vec<u8>) -> (r: ServerResult<()>)
        ensures
            match spec_header_line(line@) {
                Some(kv) => (r matches Ok(u)) && final(self)@ == (ParserModel {
                    headers: map_set(old(self)@.headers, kv.0, kv.1),
                    ..old(self)@
                }),
                None => (r matches Err(e) && e is HttpParse) && final(self)@ == old(self)@,
            },
    {
        let colon = crate::text::find_byte(line.as_slice(), 58);
        match colon {
            Some(ci) => {
                let llen = line.len();
                proof {
                    assert(ci < line@.len());
                }
                let name_raw = crate::text::subrange_vec(line.as_slice(), 0, ci);
                let name_trimmed = crate::text::trim_bytes(name_raw.as_slice());
                let name_low = crate::text::to_lower_bytes(name_trimmed.as_slice());
                let val_raw = crate::text::subrange_vec(line.as_slice(), ci + 1, llen);
                let val_trimmed = crate::text::trim_bytes(val_raw.as_slice());
                proof {
                    assert(name_raw@ == line@.take(ci as int));
                    assert(val_raw@ == line@.skip(ci + 1 as int));
                }
                let name_s = match crate::text::bytes_to_string(name_low.as_slice()) {
                    Some(s) => s,
                    None => {
                        return Err(ServerError::HttpParse("Invalid header".to_owned()));
                    },
                };
                let val_s = match crate::text::bytes_to_string(val_trimmed.as_slice()) {
                    Some(s) => s,
                    None => {
                        return Err(ServerError::HttpParse("Invalid header".to_owned()));
                    },
                };
                self.headers.insert(name_s, val_s);
                proof {
                    let kv = spec_header_line(line@).unwrap();
                    assert(self@ =~~= (ParserModel {
                        headers: map_set(old(self)@.headers, kv.0, kv.1),
                        ..old(self)@
                    }));
                }
                Ok(())
            },
            None => Err(ServerError::HttpParse("Invalid header".to_owned())),
        }
    }

    /// Read the Content-Length announced by the headers: a missing entry
    /// keeps the current value, an unparseable one counts as 0.
    fn update_content_length(&mut self)
        ensures
            final(self)@ == (ParserModel {
                content_length: spec_content_length(old(self)@.headers, old(self)@.content_length),
                ..old(self)@
            }),
    {
        let cl_string: Option<String> = match self.headers.get("content-length") {
            Some(v) => Some(v.clone()),
            None => None,
        };
        match cl_string {
            Some(v) => {
                let cs = crate::text::collect_chars(v.as_str());
                match crate::text::parse_usize_chars(&cs) {
                    Some(n) => {
                        self.content_length = n;
                    },
                    None => {
                        self.content_length = 0;
                    },
                }
            },
            None => {},
        }
        proof {
            assert(self@ =~~= (ParserModel {
                content_length: spec_content_length(old(self)@.headers, old(self)@.content_length),
                ..old(self)@
            }));
        }
    }

    /// Append body bytes, completing (and truncating any excess) once the
    /// expected length is reached.
    fn absorb_body(&mut self, tail: &[u8])
        ensures
            final(self)@ == spec_take_body(
                old(self)@,
                old(self)@.body + tail@,
                old(self)@.content_length,
            ).0,
    {
        self.body.extend_from_slice(tail);
        if self.body.len() >= self.content_length {
            let cl = self.content_length;
            self.body.truncate(cl);
            self.state = HttpParserState::Complete;
        } else {
            self.state = HttpParserState::Body;
        }
        proof {
            assert(self@ =~~= spec_take_body(
                old(self)@,
                old(self)@.body + tail@,
                old(self)@.content_length,
            ).0);
        }
    }

    /// Feed a chunk of bytes. The parser advances exactly as
    /// `spec_parse_step` describes, and the call fails with an `HttpParse`
    /// error exactly when that step does.
    #[verifier::rlimit(100)]
    pub fn parse(&mut self, data: &[u8]) -> (r: ServerResult<()>)
        ensures
            ({
                let stepped = spec_parse_step(old(self)@, data@);
                &&& final(self)@ == stepped.0
                &&& (r is Ok <==> stepped.1)
                &&& (r matches Err(e) ==> e is HttpParse)
            }),
    {
        if self.state == HttpParserState::Complete {
            self.reset();
        }
        let ghost m0 = self@;
        proof {
            assert(m0 =~~= (if old(self)@.state == HttpParserState::Complete {
                initial_model()
            } else {
                old(self)@
            }));
        }
        if !crate::text::utf8_check(data) {
            return Err(ServerError::HttpParse("Invalid UTF-8".to_owned()));
        }
        let hend_opt = crate::text::find_terminator(data);
        match hend_opt {
            Some(hend) => {
                let ghost stepped = spec_parse_head(m0, data@, hend as int);
                proof {
                    assert(spec_parse_step(old(self)@, data@) == stepped);
                }
                let head = crate::text::subrange_vec(data, 0, hend);
                let lines = crate::text::split_crlf(head.as_slice());
                let ghost lines_m = crate::text::spec_split_crlf(data@.take(hend as int));
                proof {
                    assert(head@ == data@.take(hend as int));
                    assert(lines.deep_view() == lines_m);
                }
                if self.state == HttpParserState::RequestLine {
                    let line0: &Vec<u8> = &lines[0];
                    proof {
                        assert(line0@ == lines_m[0]);
                    }
                    match self.apply_request_line(line0) {
                        Ok(u) => {
                        },
                        Err(e) => {
                            proof {
                                assert(spec_request_line(lines_m[0]) is None);
                                assert(stepped == (m0, false));
                            }
                            return Err(e);
                        },
                    }
                }
                let ghost m1 = self@;
                if self.state == HttpParserState::Headers {
                    let nlines = lines.len();
                    let mut i: usize = 1;
                    #[verifier::loop_isolation(false)]
                    while i < nlines
                        invariant
                            1 <= i <= nlines,
                            nlines == lines_m.len(),
                            self@ == (ParserModel { headers: self@.headers, ..m1 }),
                            spec_fold_headers(m1.headers, lines_m.drop_first())
                                == spec_fold_headers(self@.headers, lines_m.skip(i as int)),
                        decreases nlines - i,
                    {
                        let line: &Vec<u8> = &lines[i];
                        proof {
                            assert(line@ == lines_m[i as int]);
                            assert(lines_m.skip(i as int).drop_first() =~= lines_m.skip(
                                i + 1 as int,
                            ));
                            assert(lines_m.skip(i as int)[0] == lines_m[i as int]);
                        }
                        if line.len() > 0 {
                            match self.apply_header_line(line) {
                                Ok(u) => {
                                },
                                Err(e) => {
                                    proof {
                                        assert(spec_header_line(lines_m[i as int]) is None);
                                        assert(spec_fold_headers(
                                            m1.headers,
                                            lines_m.drop_first(),
                                        ) == (self@.headers, false));
                                        assert(stepped == (
                                            ParserModel { headers: self@.headers, ..m1 },
                                            false,
                                        ));
                                        assert(stepped.0 =~~= self@);
                                    }
                                    return Err(e);
                                },
                            }
                        }
                        i += 1;
                    }
                    proof {
                        assert(lines_m.skip(nlines as int) =~= Seq::<Seq<u8>>::empty());
                        assert(spec_fold_headers(m1.headers, lines_m.drop_first()) == (
                            self@.headers,
                            true,
                        ));
                    }
                    let ghost m2 = self@;
                    self.update_content_length();
                    let ghost cl = self@.content_length;
                    let dlen = data.len();
                    proof {
                        assert(hend + 4 <= data@.len());
                    }
                    let body_start = hend + 4;
                    if self.content_length > 0 && body_start < dlen {
                        let tail = vstd::slice::slice_subrange(data, body_start, dlen);
                        self.absorb_body(tail);
                        proof {
                            assert(self@ =~~= stepped.0);
                        }
                    } else if self.content_length == 0 {
                        self.state = HttpParserState::Complete;
                        proof {
                            assert(self@ =~~= stepped.0);
                        }
                    } else {
                        self.state = HttpParserState::Body;
                        proof {
                            assert(self@ =~~= stepped.0);
                        }
                    }
                } else {
                    proof {
                        assert(self@ =~~= stepped.0);
                    }
                }
                Ok(())
            },
            None => {
                if self.state == HttpParserState::Body {
                    self.absorb_body(data);
                }
                proof {
                    assert(self@ =~~= spec_parse_step(old(self)@, data@).0);
                }
                Ok(())
            },
        }
    }
}

// ---------------------------------------------------------------------------
// Requests
// ---------------------------------------------------------------------------
/// One `name=value` query pair; a pair without `=` keeps the whole text as
/// the name and an empty value.
pub open spec fn spec_query_pair(p: Seq<char>) -> (Seq<char>, Seq<char>) {
    match crate::text::spec_find_char(p, '=') {
        Some(e) => (p.take(e), p.skip(e + 1)),
        None => (p, Seq::<char>::empty()),
    }
}

/// Fold query pairs into a map, later pairs replacing earlier ones with the
/// same name.
pub open spec fn spec_fold_query(
    m: Seq<(Seq<char>, Seq<char>)>,
    pairs: Seq<Seq<char>>,
) -> Seq<(Seq<char>, Seq<char>)>
    decreases pairs.len(),
{
    if pairs.len() == 0 {
        m
    } else {
        let kv = spec_query_pair(pairs[0]);
        spec_fold_query(map_set(m, kv.0, kv.1), pairs.drop_first())
    }
}

/// The query parameters of a URI: the text after the first `?`, split on
/// `&`, each pair split at its first `=`.
pub open spec fn spec_query_params(uri: Seq<char>) -> Seq<(Seq<char>, Seq<char>)> {
    match crate::text::spec_find_char(uri, '?') {
        Some(q) => spec_fold_query(
            Seq::empty(),
            crate::text::spec_split_char(uri.skip(q + 1), '&'),
        ),
        None => Seq::empty(),
    }
}

/// Parse the query parameters of a URI.
fn parse_query_params(uri: &str) -> (r: HeaderMap)
    ensures
        r@ == spec_query_params(uri@),
{
    let cs = crate::text::collect_chars(uri);
    let mut params = HeaderMap::new();
    let qpos = crate::text::find_char(&cs, '?');
    match qpos {
        Some(q) => {
            let cs_len = cs.len();
            let rest = crate::text::subrange_chars(&cs, q + 1, cs_len);
            proof {
                assert(rest@ == uri@.skip(q + 1 as int));
            }
            let pairs = crate::text::split_char(&rest, '&');
            let ghost pairs_m = crate::text::spec_split_char(uri@.skip(q + 1 as int), '&');
            proof {
                assert(pairs.deep_view() == pairs_m);
            }
            let npairs = pairs.len();
            let mut i: usize = 0;
            proof {
                assert(pairs_m.skip(0) =~= pairs_m);
            }
            #[verifier::loop_isolation(false)]
            while i < npairs
                invariant
                    0 <= i <= npairs,
                    npairs == pairs_m.len(),
                    spec_fold_query(Seq::empty(), pairs_m) == spec_fold_query(
                        params@,
                        pairs_m.skip(i as int),
                    ),
                decreases npairs - i,
            {
                let pair: &Vec<char> = &pairs[i];
                proof {
                    assert(pair@ =~= pairs_m[i as int]);
                    assert(pairs_m.skip(i as int).drop_first() =~= pairs_m.skip(i + 1 as int));
                    assert(pairs_m.skip(i as int)[0] == pairs_m[i as int]);
                }
                let eq = crate::text::find_char(pair, '=');
                match eq {
                    Some(e) => {
                        let key = crate::text::subrange_chars(pair, 0, e);
                        let val = crate::text::subrange_chars(pair, e + 1, pair.len());
                        let key_s = crate::text::chars_to_string(&key);
                        let val_s = crate::text::chars_to_string(&val);
                        params.insert(key_s, val_s);
                    },
                    None => {
                        let key_s = crate::text::chars_to_string(pair);
                        params.insert(key_s, String::new());
                    },
                }
                i += 1;
            }
            proof {
                assert(pairs_m.skip(npairs as int) =~= Seq::<Seq<char>>::empty());
            }
        },
        None => {
        },
    }
    params
}

/// An immutable request snapshot: method, URI, lowercased header names,
/// body bytes, and the query parameters parsed from the URI.
pub struct Request {
    pub method: Method,
    pub uri: String,
    pub headers: HeaderMap,
    pub body: Vec<u8>,
    pub query_params: HeaderMap,
}

impl Request {
    /// Create a new request; the query parameters come from the URI.
    pub fn new(method: Method, uri: &str) -> (r: Request)
        ensures
            r.method == method,
            r.uri@ == uri@,
            r.headers@ == Seq::<(Seq<char>, Seq<char>)>::empty(),
            r.body@ == Seq::<u8>::empty(),
            r.query_params@ == spec_query_params(uri@),
    {
        let query_params = parse_query_params(uri);
        Request {
            method,
            uri: uri.to_owned(),
            headers: HeaderMap::new(),
            body: Vec::new(),
            query_params,
        }
    }

    /// Set a header; the name is stored lowercased.
    pub fn set_header(&mut self, name: &str, value: &str)
        ensures
            final(self).headers@ == map_set(
                old(self).headers@,
                crate::text::lower_chars(name@),
                value@,
            ),
            final(self).method == old(self).method,
            final(self).uri == old(self).uri,
            final(self).body == old(self).body,
            final(self).query_params == old(self).query_params,
    {
        let key = crate::text::ascii_lower_str(name);
        self.headers.insert(key, value.to_owned());
    }

    /// Look up a header by its name, case-insensitively.
    pub fn get_header(&self, name: &str) -> (r: Option<&String>)
        ensures
            match r {
                Some(v) => map_find(self.headers@, crate::text::lower_chars(name@)) == Some(v@),
                None => map_find(self.headers@, crate::text::lower_chars(name@)) is None,
            },
    {
        let key = crate::text::ascii_lower_str(name);
        self.headers.get(key.as_str())
    }

    /// Set the body and update the Content-Length header.
    pub fn set_body(&mut self, body: &[u8])
        ensures
            final(self).body@ == body@,
            final(self).headers@ == map_set(
                old(self).headers@,
                crate::text::lower_chars("Content-Length"@),
                crate::text::dec_chars(body@.len() as int),
            ),
            final(self).method == old(self).method,
            final(self).uri == old(self).uri,
            final(self).query_params == old(self).query_params,
    {
        self.body = vstd::slice::slice_to_vec(body);
        let len_s = crate::text::usize_to_string(self.body.len());
        self.set_header("Content-Length", len_s.as_str());
    }
}

impl HttpParser {
    /// The parsed request, once the parser is complete; asking earlier, or
    /// of a parser whose method or URI is missing, is an `HttpParse` error.
    pub fn get_request(&self) -> (r: ServerResult<Request>)
        ensures
            self@.state != HttpParserState::Complete ==> (r matches Err(e) && e is HttpParse),
            self@.state == HttpParserState::Complete && self@.method is None ==> (r matches Err(e)
                && e is HttpParse),
            self@.state == HttpParserState::Complete && self@.method is Some && self@.uri is None
                ==> (r matches Err(e) && e is HttpParse),
            self@.state == HttpParserState::Complete && self@.method is Some && self@.uri is Some
                ==> (r matches Ok(req) && {
                &&& req.method == self@.method.unwrap()
                &&& req.uri@ == self@.uri.unwrap()
                &&& req.headers@ == self@.headers
                &&& req.body@ == self@.body
                &&& req.query_params@ == spec_query_params(self@.uri.unwrap())
            }),
    {
        if !self.is_complete() {
            return Err(ServerError::HttpParse("Request not complete".to_owned()));
        }
        let method = match &self.method {
            Some(m) => *m,
            None => {
                return Err(ServerError::HttpParse("Method not set".to_owned()));
            },
        };
        let uri = match &self.uri {
            Some(u) => u.clone(),
            None => {
                return Err(ServerError::HttpParse("URI not set".to_owned()));
            },
        };
        let query_params = parse_query_params(uri.as_str());
        Ok(
            Request {
                method,
                uri,
                headers: self.headers.clone(),
                body: vstd::slice::slice_to_vec(self.body.as_slice()),
                query_params,
            },
        )
    }
}

// ---------------------------------------------------------------------------
// Responses
// ---------------------------------------------------------------------------
/// The serialised form of one header entry.
pub open spec fn spec_header_entry_bytes(kv: (Seq<char>, Seq<char>)) -> Seq<u8> {
    vstd::utf8::encode_utf8(kv.0) + vstd::utf8::encode_utf8(": "@) + vstd::utf8::encode_utf8(
        kv.1,
    ) + vstd::utf8::encode_utf8("\r\n"@)
}

/// The serialised form of a header block, in map order.
pub open spec fn spec_header_block(hs: Seq<(Seq<char>, Seq<char>)>) -> Seq<u8>
    decreases hs.len(),
{
    if hs.len() == 0 {
        Seq::empty()
    } else {
        spec_header_block(hs.drop_last()) + spec_header_entry_bytes(hs.last())
    }
}

/// The wire form of a response: status line, header lines, a blank line,
/// then the body bytes verbatim.
pub open spec fn spec_serialize(
    st: Status,
    hs: Seq<(Seq<char>, Seq<char>)>,
    body: Seq<u8>,
) -> Seq<u8> {
    vstd::utf8::encode_utf8("HTTP/1.1 "@) + vstd::utf8::encode_utf8(
        crate::text::dec_chars(spec_status_code(st)),
    ) + vstd::utf8::encode_utf8(" "@) + vstd::utf8::encode_utf8(spec_status_reason(st))
        + vstd::utf8::encode_utf8("\r\n"@) + spec_header_block(hs) + vstd::utf8::encode_utf8(
        "\r\n"@,
    ) + body
}

/// An HTTP response: status, headers in insertion order (names keep their
/// case), and body bytes.
pub struct Response {
    pub status: Status,
    pub headers: HeaderMap,
    pub body: Vec<u8>,
}

impl Response {
    /// A new response carrying the default `Server` and `Connection: close`
    /// headers.
    pub fn new(status: Status) -> (r: Response)
        ensures
            r.status == status,
            r.headers@ == seq![
                ("Server"@, "High-Performance-Server/0.1"@),
                ("Connection"@, "close"@),
            ],
            r.body@ == Seq::<u8>::empty(),
    {
        let mut headers = HeaderMap::new();
        headers.insert("Server".to_owned(), "High-Performance-Server/0.1".to_owned());
        headers.insert("Connection".to_owned(), "close".to_owned());
        proof {
            reveal_strlit("Server");
            reveal_strlit("Connection");
            assert("Server"@.len() == 6);
            assert("Connection"@.len() == 10);
            let h1 = map_set(
                Seq::<(Seq<char>, Seq<char>)>::empty(),
                "Server"@,
                "High-Performance-Server/0.1"@,
            );
            assert(h1 =~= seq![("Server"@, "High-Performance-Server/0.1"@)]);
            assert(h1.drop_first() =~= Seq::<(Seq<char>, Seq<char>)>::empty());
            let h2 = map_set(h1, "Connection"@, "close"@);
            assert(h2 == seq![h1[0]] + map_set(h1.drop_first(), "Connection"@, "close"@));
            assert(h2 =~= seq![
                ("Server"@, "High-Performance-Server/0.1"@),
                ("Connection"@, "close"@),
            ]);
            assert(headers@ == h2);
        }
        Response { status, headers, body: Vec::new() }
    }

    /// Set a header, preserving the case of the caller-supplied name.
    pub fn set_header(&mut self, name: &str, value: &str)
        ensures
            final(self).headers@ == map_set(old(self).headers@, name@, value@),
            final(self).status == old(self).status,
            final(self).body == old(self).body,
    {
        self.headers.insert(name.to_owned(), value.to_owned());
    }

    /// Set the body; Content-Length is updated, and a default Content-Type
    /// of `text/plain` is set when none is present yet.
    pub fn set_body(&mut self, body: &[u8])
        ensures
            final(self).body@ == body@,
            final(self).status == old(self).status,
            ({
                let h1 = map_set(
                    old(self).headers@,
                    "Content-Length"@,
                    crate::text::dec_chars(body@.len() as int),
                );
                final(self).headers@ == if map_find(h1, "Content-Type"@) is None {
                    map_set(h1, "Content-Type"@, "text/plain"@)
                } else {
                    h1
                }
            }),
    {
        self.body = vstd::slice::slice_to_vec(body);
        let len_s = crate::text::usize_to_string(self.body.len());
        self.headers.insert("Content-Length".to_owned(), len_s);
        let has_type = match self.headers.get("Content-Type") {
            Some(v) => true,
            None => false,
        };
        if !has_type {
            self.headers.insert("Content-Type".to_owned(), "text/plain".to_owned());
        }
    }

    /// Serialise the response onto the end of a byte vector.
    #[verifier::rlimit(50)]
    pub fn serialize(&self, writer: &mut Vec<u8>) -> (r: ServerResult<()>)
        ensures
            final(writer)@ == old(writer)@ + spec_serialize(self.status, self.headers@, self.body@),
            r matches Ok(u),
    {
        let ghost w0 = writer@;
        writer.extend_from_slice("HTTP/1.1 ".as_bytes());
        let code_s = crate::text::usize_to_string(self.status.code() as usize);
        writer.extend_from_slice(code_s.as_str().as_bytes());
        writer.extend_from_slice(" ".as_bytes());
        writer.extend_from_slice(self.status.as_str().as_bytes());
        writer.extend_from_slice("\r\n".as_bytes());
        let ghost wline = writer@;
        let nh = self.headers.len();
        let mut i: usize = 0;
        #[verifier::loop_isolation(false)]
        while i < nh
            invariant
                0 <= i <= nh,
                nh == self.headers@.len(),
                writer@ == wline + spec_header_block(self.headers@.take(i as int)),
            decreases nh - i,
        {
            let entry = self.headers.entry_at(i);
            writer.extend_from_slice(entry.0.as_str().as_bytes());
            writer.extend_from_slice(": ".as_bytes());
            writer.extend_from_slice(entry.1.as_str().as_bytes());
            writer.extend_from_slice("\r\n".as_bytes());
            proof {
                assert(self.headers@.take(i + 1 as int).drop_last() =~= self.headers@.take(
                    i as int,
                ));
                assert(self.headers@.take(i + 1 as int).last() == self.headers@[i as int]);
                assert(writer@ =~= wline + spec_header_block(self.headers@.take(i + 1 as int)));
            }
            i += 1;
        }
        proof {
            assert(self.headers@.take(nh as int) =~= self.headers@);
        }
        writer.extend_from_slice("\r\n".as_bytes());
        writer.extend_from_slice(self.body.as_slice());
        proof {
            assert(writer@ =~= w0 + spec_serialize(self.status, self.headers@, self.body@));
        }
        Ok(())
    }
}

// ---------------------------------------------------------------------------
// Parser laws
// ---------------------------------------------------------------------------
/// A well-formed request in one byte sequence: valid UTF-8, a head
/// terminator, a good request line, good header lines, and a Content-Length
/// that matches exactly the bytes that follow the head.
pub open spec fn well_formed_request(bytes: Seq<u8>, content_length: int) -> bool {
    &&& vstd::utf8::valid_utf8(bytes)
    &&& crate::text::spec_find_terminator(bytes) is Some
    &&& {
        let hend = crate::text::spec_find_terminator(bytes).unwrap();
        let lines = crate::text::spec_split_crlf(bytes.take(hend));
        &&& spec_request_line(lines[0]) is Some
        &&& spec_fold_headers(Seq::empty(), lines.drop_first()).1
        &&& spec_content_length(spec_fold_headers(Seq::empty(), lines.drop_first()).0, 0)
            == content_length
        &&& content_length >= 0
        &&& bytes.len() - (hend + 4) == content_length
    }
}

/// Parser completeness law: feeding a fresh parser one well-formed request
/// whose Content-Length matches its body succeeds, leaves the parser
/// complete, and accumulates a body of exactly that length.
pub proof fn lemma_parser_completeness(bytes: Seq<u8>, content_length: int)
    requires
        well_formed_request(bytes, content_length),
    ensures
        spec_parse_step(initial_model(), bytes).1,
        spec_parse_step(initial_model(), bytes).0.state == HttpParserState::Complete,
        spec_parse_step(initial_model(), bytes).0.body.len() == content_length,
{
    let m0 = initial_model();
    let hend = crate::text::spec_find_terminator(bytes).unwrap();
    crate::text::lemma_find_terminator_some(bytes, 0, hend);
    let lines = crate::text::spec_split_crlf(bytes.take(hend));
    let muv = spec_request_line(lines[0]).unwrap();
    let m1 = ParserModel {
        state: HttpParserState::Headers,
        method: Some(muv.0),
        uri: Some(muv.1),
        version: Some(muv.2),
        ..m0
    };
    let folded = spec_fold_headers(Seq::empty(), lines.drop_first());
    assert(folded == spec_fold_headers(m1.headers, lines.drop_first()));
    let cl = spec_content_length(folded.0, 0);
    assert(spec_parse_step(m0, bytes) == spec_parse_head(m0, bytes, hend));
    if cl > 0 {
        assert(hend + 4 < bytes.len());
        let body = Seq::<u8>::empty() + bytes.skip(hend + 4);
        assert(body.len() == cl);
        assert(body.take(cl) =~= body);
    }
}

/// Parser reset law: `parse(r1); reset(); parse(r2)` ends exactly where a
/// fresh parser ends after `parse(r2)`, whatever the first parse left
/// behind, because `reset` lands on the model a fresh parser starts from.
pub proof fn lemma_parser_reset(m: ParserModel, r1: Seq<u8>, r2: Seq<u8>)
    ensures
        spec_parse_step(spec_reset(spec_parse_step(m, r1).0), r2) == spec_parse_step(
            initial_model(),
            r2,
        ),
{
}

} // verus!
