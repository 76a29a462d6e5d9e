//! Where a request goes and what it carries, and what the head of a reply
//! decides.
use vstd::prelude::*;
use vstd::string::*;

use crate::call::{carries, sendable, Intent};
use crate::http::{
    address, answered_by, answered_with, authorized, component_ok, framed_as, head_error, path_ok,
    request_ok, requests, slashed, status_error, taken, transport_error, Framing, Method, Request,
    CONNECT_SECONDS, DEADLINE_SECONDS, MAX_INPUT, MAX_POST, MAX_RESPONSE,
};
use crate::json::Json;
use crate::text::bytes_of;

verus! {

/// What the limits on a request and a reply are.
pub proof fn the_limits_of_an_exchange()
    ensures
        MAX_INPUT == 64 * 1024,
        MAX_POST == 16 * 1024 * 1024,
        MAX_RESPONSE == 16 * 1024 * 1024,
        DEADLINE_SECONDS == 20,
        CONNECT_SECONDS == 10,
{
}

/// Whether a text holds no control byte and at most 64 KiB.
pub open spec fn printable(s: Seq<char>) -> bool {
    &&& bytes_of(s).len() <= 65536
    &&& forall|i: int|
        0 <= i < bytes_of(s).len() ==> 32 <= #[trigger] bytes_of(s)[i] && bytes_of(s)[i] != 127
}

/// A path is accepted exactly where it has one to eight components, each of
/// them printable, not empty, neither `.` nor `..` and without a slash, and its
/// address takes at most 64 KiB.
pub proof fn which_paths_are_accepted(path: Seq<Seq<char>>)
    ensures
        path_ok(path) <==> {
            &&& 1 <= path.len() <= 8
            &&& forall|i: int|
                0 <= i < path.len() ==> {
                    let part = #[trigger] path[i];
                    &&& printable(part)
                    &&& part.len() > 0
                    &&& part != "."@
                    &&& part != ".."@
                    &&& forall|k: int| 0 <= k < part.len() ==> #[trigger] part[k] != '/'
                }
            &&& bytes_of(address(path)).len() <= 65536
        },
{
    if path_ok(path) {
        assert forall|i: int| 0 <= i < path.len() implies {
            let part = #[trigger] path[i];
            &&& printable(part)
            &&& part.len() > 0
            &&& part != "."@
            &&& part != ".."@
            &&& forall|k: int| 0 <= k < part.len() ==> #[trigger] part[k] != '/'
        } by {
            assert(component_ok(path[i]));
            assert forall|k: int| 0 <= k < path[i].len() implies #[trigger] path[i][k] != '/' by {
                assert(path[i].contains(path[i][k]));
            }
        }
    } else if forall|i: int|
        0 <= i < path.len() ==> {
            let part = #[trigger] path[i];
            &&& printable(part)
            &&& part.len() > 0
            &&& part != "."@
            &&& part != ".."@
            &&& forall|k: int| 0 <= k < part.len() ==> #[trigger] part[k] != '/'
        } {
        assert forall|i: int| 0 <= i < path.len() implies component_ok(#[trigger] path[i]) by {
            assert(printable(path[i]));
        }
    }
}

proof fn slashed_ignores_the_rest(path: Seq<Seq<char>>, part: Seq<char>, n: int)
    requires
        0 <= n <= path.len(),
    ensures
        slashed(path.push(part), n) == slashed(path, n),
    decreases n,
{
    if n > 1 {
        slashed_ignores_the_rest(path, part, n - 1);
    }
}

/// How an address is written: the origin and the first component, and a slash
/// before each further one.
pub proof fn how_an_address_is_written(path: Seq<Seq<char>>, part: Seq<char>)
    ensures
        address(Seq::empty().push(part)) == "https://lnemail.net/api/v1/"@ + part,
        path.len() > 0 ==> address(path.push(part)) == address(path).push('/') + part,
{
    slashed_ignores_the_rest(path, part, path.len() as int);
    if path.len() > 0 {
        assert(address(path.push(part)) =~= address(path).push('/') + part);
    }
}

/// What a request carries: the method and the address it was asked for, its
/// body, and the token behind `Bearer `, marked sensitive; no header at all
/// where the token is empty. It is made where the path is accepted and the token
/// is printable.
pub proof fn what_a_request_carries(
    r: Request,
    method: Method,
    path: Seq<Seq<char>>,
    body: Option<Seq<char>>,
    token: Seq<char>,
)
    ensures
        requests(r, method, path, body, token) <==> {
            &&& r.method == method
            &&& r.url@ == address(path)
            &&& match (r.body, body) {
                (Some(s), Some(t)) => s@ == t,
                (None, None) => true,
                _ => false,
            }
            &&& match r.authorization {
                Some(a) => token.len() > 0 && a.value@ == bytes_of("Bearer "@ + token)
                    && a.sensitive,
                None => token.len() == 0,
            }
        },
        request_ok(path, token) <==> path_ok(path) && printable(token),
        authorized(token) is None <==> token.len() == 0,
{
}

/// How large the body of a planned request may be: 16 MiB in a post and 64 KiB
/// in a deletion; a read goes without one and a post with one.
pub proof fn how_large_a_body_may_be(plan: Intent, body: Option<Seq<char>>, token: Seq<char>)
    ensures
        sendable(plan, body, token) <==> path_ok(plan.path) && printable(token) && (
        body is Some ==> bytes_of(body->0).len() <= (if plan.method == Method::Post {
            16777216int
        } else {
            65536
        })),
        carries(plan.method, body is Some) <==> (plan.method == Method::Get ==> body is None) && (
        plan.method == Method::Post ==> body is Some),
{
}

/// What the head of a reply decides: the statuses from 200 to 299 are fair and
/// no other is, each of the others with its word; then a length that is
/// announced over 16 MiB is refused.
pub proof fn what_the_head_of_a_reply_decides(status: u16, announced: Option<u64>)
    ensures
        status_error(status) is None <==> 200 <= status <= 299,
        status == 401 ==> head_error(status, announced) == Some("lnemail_unauthorized"),
        status == 403 ==> head_error(status, announced) == Some("lnemail_forbidden"),
        status == 404 ==> head_error(status, announced) == Some("lnemail_not_found"),
        status == 409 ==> head_error(status, announced) == Some("lnemail_conflict"),
        status == 411 ==> head_error(status, announced) == Some("lnemail_length_required"),
        status == 422 ==> head_error(status, announced) == Some("lnemail_invalid_input"),
        status == 429 ==> head_error(status, announced) == Some("lnemail_rate_limited"),
        !(200 <= status <= 299) && status != 401 && status != 403 && status != 404 && status != 409
            && status != 411 && status != 422 && status != 429 ==> head_error(status, announced)
            == Some("lnemail_http_failed"),
        200 <= status <= 299 ==> head_error(status, announced) == (if announced is Some
            && announced->0 > 16777216 {
            Some("lnemail_response_too_large")
        } else {
            None
        }),
{
}

/// How a body is announced: as JSON where there is one, as empty where a post or
/// a deletion has none, and not at all in a read without one.
pub proof fn how_a_body_is_announced(method: Method, body: bool)
    ensures
        framed_as(method, body) == Framing::Json <==> body,
        framed_as(method, body) == Framing::Bare <==> !body && method == Method::Get,
        framed_as(method, body) == Framing::Empty <==> !body && (method == Method::Post || method
            == Method::Delete),
{
}

/// What a reply that came whole is answered with: an empty one with an empty
/// object, one that is an object with that object, and any other with a word
/// that says that it is invalid. A transport that failed has one of two words.
pub proof fn what_a_reply_is_answered_with(body: Seq<u8>, parsed: Option<Json>)
    ensures
        body.len() == 0 ==> answered_by(body) == Some(Json::Record(Seq::empty())),
        body.len() > 0 ==> answered_by(body) is None,
        parsed is Some && parsed->0 is Record ==> answered_with(parsed) == Ok::<Json, &'static str>(
            parsed->0,
        ),
        !(parsed is Some && parsed->0 is Record) ==> answered_with(parsed) == Err::<
            Json,
            &'static str,
        >("lnemail_invalid_response"),
        transport_error(true) == "lnemail_timeout",
        transport_error(false) == "lnemail_http_failed",
{
}

/// A piece of a body is added to what is held while both together are at most
/// 16 MiB.
pub proof fn how_much_of_a_body_is_held(bytes: Seq<u8>, chunk: Seq<u8>)
    ensures
        taken(bytes, chunk) == (if bytes.len() + chunk.len() <= 16777216 {
            Some(bytes + chunk)
        } else {
            None
        }),
{
}

} // verus!
