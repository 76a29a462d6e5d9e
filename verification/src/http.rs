//! Requests to the fixed LNemail origin, and what is made of the replies. An
//! error is a fixed word and never holds response data.
use vstd::prelude::*;
use vstd::string::*;

use crate::json::{in_json, Json, Members, Value};
use crate::params::{free_of_control, no_control, strings};
use crate::text::{begins_with, byte_len, bytes_of, bytes_of_concat, same};

verus! {

/// Where every request goes.
pub const ORIGIN: &'static str = "https://lnemail.net/api/v1/";

/// The most bytes in a path component, a token, an address or the body of a
/// deletion.
pub const MAX_INPUT: usize = 64 * 1024;

/// The most bytes in the body of a post.
pub const MAX_POST: usize = 16 * 1024 * 1024;

/// The most bytes in a reply.
pub const MAX_RESPONSE: usize = 16 * 1024 * 1024;

/// How many seconds a whole exchange may take.
pub const DEADLINE_SECONDS: u64 = 20;

/// How many seconds connecting may take.
pub const CONNECT_SECONDS: u64 = 10;

/// Whether a value may be part of a request: within the limit and without a
/// control byte.
pub open spec fn input_ok(value: Seq<char>) -> bool {
    bytes_of(value).len() <= MAX_INPUT && no_control(bytes_of(value))
}

/// Refuses a value that is too long or holds a control byte.
pub fn valid(value: &str) -> (r: Result<(), &'static str>)
    ensures
        r == (if input_ok(value@) {
            Ok::<(), &'static str>(())
        } else {
            Err("lnemail_invalid_input")
        }),
{
    let bytes = value.as_bytes();
    if bytes.len() > MAX_INPUT || !free_of_control(bytes) {
        return Err("lnemail_invalid_input");
    }
    Ok(())
}

/// Whether a value may be a path component.
pub open spec fn component_ok(part: Seq<char>) -> bool {
    &&& input_ok(part)
    &&& part.len() > 0
    &&& part != "."@
    &&& part != ".."@
    &&& !part.contains('/')
}

fn has_slash(part: &str) -> (r: bool)
    ensures
        r == part@.contains('/'),
{
    for c in it: part.chars()
        invariant
            it.seq() == part@,
            forall|j: int| 0 <= j < it.index() ==> part@[j] != '/',
    {
        if c == '/' {
            assert(part@[it.index() as int] == '/');
            return true;
        }
    }
    false
}

/// The first `n` components with a slash between each two.
pub open spec fn slashed(path: Seq<Seq<char>>, n: int) -> Seq<char>
    decreases n,
{
    if n <= 0 {
        Seq::empty()
    } else if n == 1 {
        path[0]
    } else {
        slashed(path, n - 1).push('/') + path[n - 1]
    }
}

/// The address that a path names.
pub open spec fn address(path: Seq<Seq<char>>) -> Seq<char> {
    ORIGIN@ + slashed(path, path.len() as int)
}

/// Whether a path may be asked for: one to eight components, and an address
/// within the limit.
pub open spec fn path_ok(path: Seq<Seq<char>>) -> bool {
    &&& 1 <= path.len() <= 8
    &&& forall|i: int| 0 <= i < path.len() ==> component_ok(#[trigger] path[i])
    &&& bytes_of(address(path)).len() <= MAX_INPUT
}

/// The address of a path below the origin. Path entries are individual
/// components, never an arbitrary URL or a slash path.
pub fn url(path: &[&str]) -> (r: Result<String, &'static str>)
    ensures
        match r {
            Ok(out) => path_ok(strings(path@)) && out@ == address(strings(path@)),
            Err(e) => !path_ok(strings(path@)) && e == "lnemail_invalid_input",
        },
{
    let ghost all = strings(path@);
    if path.len() == 0 || path.len() > 8 {
        return Err("lnemail_invalid_input");
    }
    let mut out = ORIGIN.to_owned();
    assert(out@ + slashed(all, 0) =~= out@);
    for index in 0..path.len()
        invariant
            all == strings(path@),
            1 <= all.len() <= 8,
            forall|j: int| 0 <= j < index ==> component_ok(#[trigger] all[j]),
            out@ == ORIGIN@ + slashed(all, index as int),
    {
        let part = path[index];
        assert(part@ == all[index as int]);
        match valid(part) {
            Ok(()) => {},
            Err(e) => {
                assert(!component_ok(all[index as int]));
                return Err(e);
            },
        }
        if part.is_empty() || same(part, ".") || same(part, "..") || has_slash(part) {
            assert(!component_ok(all[index as int]));
            return Err("lnemail_invalid_input");
        }
        if index != 0 {
            out.push('/');
        }
        out.append(part);
        assert(out@ =~= ORIGIN@ + slashed(all, index + 1));
    }
    if byte_len(out.as_str()) > MAX_INPUT {
        return Err("lnemail_invalid_input");
    }
    Ok(out)
}

/// Every address stays below the origin.
pub proof fn address_stays_on_the_origin(path: Seq<Seq<char>>)
    ensures
        begins_with(address(path), ORIGIN@),
{
    assert(address(path).subrange(0, ORIGIN@.len() as int) =~= ORIGIN@);
}

proof fn last_slash_marks_the_end(a: Seq<char>, b: Seq<char>, x: Seq<char>, y: Seq<char>)
    requires
        !x.contains('/'),
        !y.contains('/'),
        a.push('/') + x == b.push('/') + y,
    ensures
        a == b,
        x == y,
{
    let left = a.push('/') + x;
    let right = b.push('/') + y;
    if a.len() < b.len() {
        let i = b.len() as int;
        assert(left.len() == right.len());
        assert(right[i] == b.push('/')[i]);
        assert(left[i] == x[i - a.push('/').len()]);
    } else if b.len() < a.len() {
        let i = a.len() as int;
        assert(left.len() == right.len());
        assert(left[i] == a.push('/')[i]);
        assert(right[i] == y[i - b.push('/').len()]);
    } else {
        assert forall|i: int| 0 <= i < a.len() implies a[i] == b[i] by {
            assert(left[i] == a[i]);
            assert(right[i] == b[i]);
        }
        assert(a =~= b);
        assert(left.skip(a.len() as int + 1) =~= x);
        assert(right.skip(a.len() as int + 1) =~= y);
    }
}

proof fn slashed_tells_paths_apart(path: Seq<Seq<char>>, n: int, other: Seq<Seq<char>>, m: int)
    requires
        1 <= n <= path.len(),
        1 <= m <= other.len(),
        forall|i: int| 0 <= i < path.len() ==> !(#[trigger] path[i]).contains('/'),
        forall|i: int| 0 <= i < other.len() ==> !(#[trigger] other[i]).contains('/'),
        slashed(path, n) == slashed(other, m),
    ensures
        n == m,
        path.take(n) == other.take(m),
    decreases n,
{
    assert(!path[n - 1].contains('/') && !other[m - 1].contains('/'));
    if n == 1 && m == 1 {
        assert(path.take(n) =~= other.take(m));
    } else if n == 1 {
        let whole = slashed(other, m);
        assert(whole[slashed(other, m - 1).len() as int] == '/');
        assert(path[0].contains('/'));
    } else if m == 1 {
        let whole = slashed(path, n);
        assert(whole[slashed(path, n - 1).len() as int] == '/');
        assert(other[0].contains('/'));
    } else {
        last_slash_marks_the_end(
            slashed(path, n - 1),
            slashed(other, m - 1),
            path[n - 1],
            other[m - 1],
        );
        slashed_tells_paths_apart(path, n - 1, other, m - 1);
        assert(path.take(n) =~= path.take(n - 1).push(path[n - 1]));
        assert(other.take(m) =~= other.take(m - 1).push(other[m - 1]));
    }
}

/// An address that may be asked for names one path: its components are those
/// that were given, no more and no fewer.
pub proof fn an_address_names_one_path(path: Seq<Seq<char>>, other: Seq<Seq<char>>)
    requires
        path_ok(path),
        path_ok(other),
        address(path) == address(other),
    ensures
        path == other,
{
    let n = path.len() as int;
    let m = other.len() as int;
    assert(address(path).skip(ORIGIN@.len() as int) =~= slashed(path, n));
    assert(address(other).skip(ORIGIN@.len() as int) =~= slashed(other, m));
    assert forall|i: int| 0 <= i < path.len() implies !(#[trigger] path[i]).contains('/') by {
        assert(component_ok(path[i]));
    }
    assert forall|i: int| 0 <= i < other.len() implies !(#[trigger] other[i]).contains('/') by {
        assert(component_ok(other[i]));
    }
    slashed_tells_paths_apart(path, n, other, m);
    assert(path.take(n) =~= path);
    assert(other.take(m) =~= other);
}

/// The value of an `Authorization` header, and whether it is kept out of logs.
#[derive(Debug, PartialEq)]
pub struct Authorization {
    pub value: Vec<u8>,
    pub sensitive: bool,
}

/// Whether a byte may stand in a header's value.
pub open spec fn header_byte(b: u8) -> bool {
    b == 9 || (b >= 32 && b != 127)
}

/// `reqwest::header::HeaderValue::from_str`: the header value with the bytes
/// of the text, or none where one of them is a control byte other than a tab.
#[verifier::external_body]
fn header_value(text: &str) -> (r: Option<Vec<u8>>)
    ensures
        r is Some <==> forall|i: int|
            0 <= i < bytes_of(text@).len() ==> header_byte(#[trigger] bytes_of(text@)[i]),
        r is Some ==> r->0@ == bytes_of(text@),
{
    reqwest::header::HeaderValue::from_str(text).ok().map(|value| value.as_bytes().to_vec())
}

/// The bytes of the header that carries a token.
pub open spec fn bearer(token: Seq<char>) -> Seq<u8> {
    bytes_of("Bearer "@ + token)
}

/// What an `Authorization` header is.
pub open spec fn header_of(a: Option<Authorization>) -> Option<(Seq<u8>, bool)> {
    match a {
        Some(a) => Some((a.value@, a.sensitive)),
        None => None,
    }
}

/// The header for a token: none for an empty one.
pub open spec fn authorized(token: Seq<char>) -> Option<(Seq<u8>, bool)> {
    if token.len() == 0 {
        None
    } else {
        Some((bearer(token), true))
    }
}

/// The header that carries a token, marked sensitive. An empty token carries
/// none.
pub fn authorization(token: &str) -> (r: Result<Option<Authorization>, &'static str>)
    ensures
        match r {
            Ok(a) => input_ok(token@) && header_of(a) == authorized(token@),
            Err(e) => !input_ok(token@) && e == "lnemail_invalid_input",
        },
{
    if token.is_empty() {
        assert(bytes_of(token@) =~= Seq::<u8>::empty());
        return Ok(None);
    }
    match valid(token) {
        Ok(()) => {},
        Err(e) => return Err(e),
    }
    let mut text = "Bearer ".to_owned();
    text.append(token);
    proof {
        reveal_strlit("Bearer ");
        bytes_of_concat("Bearer "@, token@);
        vstd::utf8::is_ascii_chars_encode_utf8("Bearer "@);
        assert forall|i: int| 0 <= i < bytes_of(text@).len() implies header_byte(
            #[trigger] bytes_of(text@)[i],
        ) by {
            let n = bytes_of("Bearer "@).len();
            if i >= n {
                assert(bytes_of(text@)[i] == bytes_of(token@)[i - n]);
            } else {
                assert(bytes_of(text@)[i] == bytes_of("Bearer "@)[i]);
                assert("Bearer "@[i] as u8 >= 32);
            }
        }
    }
    match header_value(text.as_str()) {
        Some(value) => Ok(Some(Authorization { value, sensitive: true })),
        None => Err("lnemail_invalid_input"),
    }
}

/// What a request does.
#[derive(Debug, PartialEq, Eq, Clone, Copy, Structural)]
pub enum Method {
    Get,
    Post,
    Delete,
}

/// A request that is ready to be sent.
#[derive(Debug, PartialEq)]
pub struct Request {
    pub method: Method,
    pub url: String,
    pub body: Option<String>,
    pub authorization: Option<Authorization>,
}

/// The characters of a text that may be missing.
pub open spec fn body_text(body: Option<String>) -> Option<Seq<char>> {
    match body {
        Some(s) => Some(s@),
        None => None,
    }
}

/// Whether a request is the one for these parts.
pub open spec fn requests(
    r: Request,
    method: Method,
    path: Seq<Seq<char>>,
    body: Option<Seq<char>>,
    token: Seq<char>,
) -> bool {
    &&& r.method == method
    &&& r.url@ == address(path)
    &&& body_text(r.body) == body
    &&& header_of(r.authorization) == authorized(token)
}

/// Whether a path and a token may make a request.
pub open spec fn request_ok(path: Seq<Seq<char>>, token: Seq<char>) -> bool {
    path_ok(path) && input_ok(token)
}

/// A read. The token is empty for the endpoints that need none.
pub fn get(path: &[&str], token: &str) -> (r: Result<Request, &'static str>)
    ensures
        match r {
            Ok(q) => request_ok(strings(path@), token@) && requests(
                q,
                Method::Get,
                strings(path@),
                None,
                token@,
            ),
            Err(e) => !request_ok(strings(path@), token@) && e == "lnemail_invalid_input",
        },
{
    let url = url(path)?;
    let authorization = authorization(token)?;
    Ok(Request { method: Method::Get, url, body: None, authorization })
}

/// A post of a body that is already JSON text.
pub fn post(path: &[&str], body: String, token: &str) -> (r: Result<Request, &'static str>)
    ensures
        match r {
            Ok(q) => request_ok(strings(path@), token@) && bytes_of(body@).len() <= MAX_POST
                && requests(q, Method::Post, strings(path@), Some(body@), token@),
            Err(e) => !(request_ok(strings(path@), token@) && bytes_of(body@).len() <= MAX_POST)
                && e == "lnemail_invalid_input",
        },
{
    let url = url(path)?;
    let authorization = authorization(token)?;
    if byte_len(body.as_str()) > MAX_POST {
        return Err("lnemail_invalid_input");
    }
    Ok(Request { method: Method::Post, url, body: Some(body), authorization })
}

/// A deletion, with a body that is already JSON text or with none.
pub fn delete(path: &[&str], body: Option<String>, token: &str) -> (r: Result<
    Request,
    &'static str,
>)
    ensures
        match r {
            Ok(q) => request_ok(strings(path@), token@) && (body is Some ==> bytes_of(
                body->0@,
            ).len() <= MAX_INPUT) && requests(
                q,
                Method::Delete,
                strings(path@),
                body_text(body),
                token@,
            ),
            Err(e) => !(request_ok(strings(path@), token@) && (body is Some ==> bytes_of(
                body->0@,
            ).len() <= MAX_INPUT)) && e == "lnemail_invalid_input",
        },
{
    let url = url(path)?;
    let authorization = authorization(token)?;
    match &body {
        Some(text) => {
            if byte_len(text.as_str()) > MAX_INPUT {
                return Err("lnemail_invalid_input");
            }
        },
        None => {},
    }
    Ok(Request { method: Method::Delete, url, body, authorization })
}

/// How the body of a request is announced.
#[derive(Debug, PartialEq, Eq, Clone, Copy, Structural)]
pub enum Framing {
    /// `Content-Type: application/json`, and the body.
    Json,
    /// `Content-Length: 0`: some gateways reject a post or a deletion that has
    /// no length.
    Empty,
    /// Neither.
    Bare,
}

/// How the body of a request is announced.
pub open spec fn framed_as(method: Method, body: bool) -> Framing {
    if body {
        Framing::Json
    } else if method == Method::Get {
        Framing::Bare
    } else {
        Framing::Empty
    }
}

impl Request {
    /// How the body of this request is announced.
    pub fn framing(&self) -> (r: Framing)
        ensures
            r == framed_as(self.method, self.body is Some),
            r == (if self.body is Some {
                Framing::Json
            } else if self.method == Method::Get {
                Framing::Bare
            } else {
                Framing::Empty
            }),
    {
        match &self.body {
            Some(_) => Framing::Json,
            None => match self.method {
                Method::Get => Framing::Bare,
                Method::Post | Method::Delete => Framing::Empty,
            },
        }
    }
}

/// The error for a transport that failed.
pub open spec fn transport_error(timed_out: bool) -> &'static str {
    if timed_out {
        "lnemail_timeout"
    } else {
        "lnemail_http_failed"
    }
}

/// The error for a transport that failed.
pub fn http_error(timed_out: bool) -> (r: &'static str)
    ensures
        r == transport_error(timed_out),
        r == (if timed_out {
            "lnemail_timeout"
        } else {
            "lnemail_http_failed"
        }),
{
    if timed_out {
        "lnemail_timeout"
    } else {
        "lnemail_http_failed"
    }
}

/// The error for the status of a reply, where it is one.
pub open spec fn status_error(status: u16) -> Option<&'static str> {
    if 200 <= status <= 299 {
        None
    } else if status == 401 {
        Some("lnemail_unauthorized")
    } else if status == 403 {
        Some("lnemail_forbidden")
    } else if status == 404 {
        Some("lnemail_not_found")
    } else if status == 409 {
        Some("lnemail_conflict")
    } else if status == 411 {
        Some("lnemail_length_required")
    } else if status == 422 {
        Some("lnemail_invalid_input")
    } else if status == 429 {
        Some("lnemail_rate_limited")
    } else {
        Some("lnemail_http_failed")
    }
}

/// What the head of a reply decides: an error status before anything else,
/// then a length that is announced and too large.
pub open spec fn head_error(status: u16, announced: Option<u64>) -> Option<&'static str> {
    match status_error(status) {
        Some(e) => Some(e),
        None => match announced {
            Some(n) => if n > MAX_RESPONSE {
                Some("lnemail_response_too_large")
            } else {
                None
            },
            None => None,
        },
    }
}

/// A reply that is being read.
#[derive(Debug, PartialEq)]
pub struct Reply {
    bytes: Vec<u8>,
}

impl View for Reply {
    type V = Seq<u8>;

    closed spec fn view(&self) -> Seq<u8> {
        self.bytes@
    }
}

/// What is to be done with a reply that has been read.
#[derive(Debug, PartialEq)]
pub enum Ending {
    /// It was empty: the answer is this.
    Answer(Value),
    /// It is to be parsed as JSON.
    Parse(Vec<u8>),
}

/// What is held once one more piece of a body was read: none where it is too
/// large.
pub open spec fn taken(bytes: Seq<u8>, chunk: Seq<u8>) -> Option<Seq<u8>> {
    if bytes.len() + chunk.len() <= MAX_RESPONSE {
        Some(bytes + chunk)
    } else {
        None
    }
}

impl Reply {
    /// Whether what was read so far is within the limit.
    pub open spec fn within(self) -> bool {
        self@.len() <= MAX_RESPONSE
    }

    /// The head of a reply: refused by its status, or by the length that it
    /// announces, before any of its body is read.
    pub fn head(status: u16, announced: Option<u64>) -> (r: Result<Reply, &'static str>)
        ensures
            match r {
                Ok(reply) => head_error(status, announced) is None && reply@ == Seq::<u8>::empty()
                    && reply.within(),
                Err(e) => head_error(status, announced) == Some(e),
            },
    {
        if status == 401 {
            return Err("lnemail_unauthorized");
        }
        if !(200 <= status && status <= 299) {
            return Err(
                match status {
                    403 => "lnemail_forbidden",
                    404 => "lnemail_not_found",
                    409 => "lnemail_conflict",
                    411 => "lnemail_length_required",
                    422 => "lnemail_invalid_input",
                    429 => "lnemail_rate_limited",
                    _ => "lnemail_http_failed",
                },
            );
        }
        match announced {
            Some(n) => {
                if n > MAX_RESPONSE as u64 {
                    return Err("lnemail_response_too_large");
                }
            },
            None => {},
        }
        Ok(Reply { bytes: Vec::new() })
    }

    /// One more piece of the body, refused where the body grows too large.
    pub fn chunk(self, chunk: &[u8]) -> (r: Result<Reply, &'static str>)
        requires
            self.within(),
        ensures
            taken(self@, chunk@) == (match r {
                Ok(reply) => Some(reply@),
                Err(_) => None,
            }),
            match r {
                Ok(reply) => self@.len() + chunk@.len() <= MAX_RESPONSE && reply@ == self@ + chunk@
                    && reply.within(),
                Err(e) => self@.len() + chunk@.len() > MAX_RESPONSE && e
                    == "lnemail_response_too_large",
            },
    {
        let mut bytes = self.bytes;
        if chunk.len() > MAX_RESPONSE - bytes.len() {
            return Err("lnemail_response_too_large");
        }
        let ghost before = bytes@;
        bytes.extend_from_slice(chunk);
        assert(bytes@ =~= before + chunk@);
        Ok(Reply { bytes })
    }

    /// The end of the body: an empty one stands for an empty object.
    pub fn end(self) -> (r: Ending)
        ensures
            answered_by(self@) == (match r {
                Ending::Answer(value) => Some(value@),
                Ending::Parse(_) => None,
            }),
            match r {
                Ending::Answer(value) => self@.len() == 0 && value@ == Json::Record(Seq::empty()),
                Ending::Parse(bytes) => self@.len() > 0 && bytes@ == self@,
            },
    {
        if self.bytes.len() == 0 {
            Ending::Answer(Members::new().object())
        } else {
            Ending::Parse(self.bytes)
        }
    }
}

/// What a body answers before it is parsed: an empty one stands for an empty
/// object.
pub open spec fn answered_by(body: Seq<u8>) -> Option<Json> {
    if body.len() == 0 {
        Some(Json::Record(Seq::empty()))
    } else {
        None
    }
}

/// What is answered with what was parsed from a reply, where it was JSON.
pub open spec fn answered_with(parsed: Option<Json>) -> Result<Json, &'static str> {
    match parsed {
        Some(Json::Record(fields)) => Ok(Json::Record(fields)),
        _ => Err("lnemail_invalid_response"),
    }
}

/// What was parsed from a reply, where it was JSON: only an object is an
/// answer.
pub fn answer(parsed: Option<Value>) -> (r: Result<Value, &'static str>)
    ensures
        in_json(r) == answered_with(
            match parsed {
                Some(value) => Some(value@),
                None => None,
            },
        ),
        match parsed {
            Some(value) => r == (if value@ is Record {
                Ok::<Value, &'static str>(value)
            } else {
                Err("lnemail_invalid_response")
            }),
            None => r == Err::<Value, &'static str>("lnemail_invalid_response"),
        },
{
    match parsed {
        Some(value) => match value.as_object() {
            Some(_) => Ok(value),
            None => Err("lnemail_invalid_response"),
        },
        None => Err("lnemail_invalid_response"),
    }
}

/// The first `n` pieces of a body put together.
pub open spec fn joined(chunks: Seq<Seq<u8>>, n: int) -> Seq<u8>
    decreases n,
{
    if n <= 0 {
        Seq::empty()
    } else {
        joined(chunks, n - 1) + chunks[n - 1]
    }
}

/// What is held after the first `n` pieces, read one by one: none once a piece
/// was refused.
pub open spec fn held(chunks: Seq<Seq<u8>>, n: int) -> Option<Seq<u8>>
    decreases n,
{
    if n <= 0 {
        Some(Seq::empty())
    } else {
        match held(chunks, n - 1) {
            Some(bytes) => taken(bytes, chunks[n - 1]),
            None => None,
        }
    }
}

/// However a body is cut into pieces, it is held in full where it is within
/// the limit, and refused where it is not.
pub proof fn a_body_is_held_iff_it_fits(chunks: Seq<Seq<u8>>, n: int)
    requires
        0 <= n <= chunks.len(),
    ensures
        held(chunks, n) == (if joined(chunks, n).len() <= MAX_RESPONSE {
            Some(joined(chunks, n))
        } else {
            None
        }),
    decreases n,
{
    if n > 0 {
        a_body_is_held_iff_it_fits(chunks, n - 1);
    }
}

} // verus!
