//! The calls that a mail client makes of LNemail, a disposable mailbox reached
//! over a REST API with a bearer token.
//!
//! A call goes in three steps. [`call`] checks the method and its parameters
//! and plans the one request that answers it, before any credential is looked
//! up. Once the credential is known, [`request`] makes the request. Once the
//! reply is in, [`conclude`] makes the answer of it.
//!
//! Three calls need no account and no token: creating a mailbox and checking
//! whether its invoice has been paid happen before one exists. Every other is
//! bound to an account and its token, the mailbox's only credential.
use vstd::prelude::*;

use crate::codec::{base64url_read, decode_url, seq_of};
use crate::http::{
    body_text, delete, get, post, request_ok, requests, Method, Request, MAX_INPUT, MAX_POST,
};
use crate::json::{in_json, list_of, member_of_push, Items, Json, Members, Record, Value};
use crate::outgoing::{decode_outgoing, decoded};
use crate::params::{
    allowed, allows, boolean, explicit_token, flag_of, hash_in, in_characters, optional, segment, segment_in,
    segment_of, segment_value, sent_hash, strings, text, text_of, text_or_null, token_of,
};
use crate::resource::{
    attachment_data, attachments_in, attached_bytes, body_of, full_message, list_row, listed,
    opened, sent, sent_message, sent_opened, sent_row,
};
use crate::text::{bytes_of, index_named, parse_index, same, trimmed};

verus! {

/// The most messages that one call deletes.
pub const MAX_DELETE_BATCH: usize = 500;

/// The most bytes of a message that is sent.
pub const MAX_RAW_MESSAGE_DECODED: usize = 32 * 1024 * 1024;

/// The most bytes that such a message takes in base64.
pub const MAX_RAW_MESSAGE_ENCODED: usize = MAX_RAW_MESSAGE_DECODED * 4 / 3 + 4;

/// What authorises a request.
#[derive(Debug, PartialEq)]
pub enum Bearer {
    /// Nothing: the endpoint asks for no token.
    Nobody,
    /// This token.
    Token(String),
    /// The token that is stored for this account.
    Account(String),
}

/// What a [`Bearer`] is.
pub enum Credential {
    Nobody,
    Token(Seq<char>),
    Account(Seq<char>),
}

impl View for Bearer {
    type V = Credential;

    open spec fn view(&self) -> Credential {
        match self {
            Bearer::Nobody => Credential::Nobody,
            Bearer::Token(s) => Credential::Token(s@),
            Bearer::Account(s) => Credential::Account(s@),
        }
    }
}

/// What is made of a reply.
#[derive(Debug, PartialEq)]
pub enum Answer {
    /// The reply itself.
    Whole,
    /// The rows of the recent-sends log.
    Sends,
    /// The rows of the message list.
    Messages,
    /// The row of the recent-sends log with this payment hash, opened.
    Send(String),
    /// A message, opened.
    Message,
    /// The attachment of a message with this index.
    Attachment(usize),
}

/// What an [`Answer`] is.
pub enum Outcome {
    Whole,
    Sends,
    Messages,
    Send(Seq<char>),
    Message,
    Attachment(usize),
}

impl View for Answer {
    type V = Outcome;

    open spec fn view(&self) -> Outcome {
        match self {
            Answer::Whole => Outcome::Whole,
            Answer::Sends => Outcome::Sends,
            Answer::Messages => Outcome::Messages,
            Answer::Send(hash) => Outcome::Send(hash@),
            Answer::Message => Outcome::Message,
            Answer::Attachment(index) => Outcome::Attachment(*index),
        }
    }
}

/// The request that answers a call, and what is made of the reply.
#[derive(Debug, PartialEq)]
pub struct Plan {
    pub bearer: Bearer,
    pub method: Method,
    pub path: Vec<String>,
    pub body: Option<Value>,
    pub answer: Answer,
}

/// What a [`Plan`] is.
pub struct Intent {
    pub bearer: Credential,
    pub method: Method,
    pub path: Seq<Seq<char>>,
    pub body: Option<Json>,
    pub answer: Outcome,
}

/// The characters of the strings of a run.
pub open spec fn steps(path: Seq<String>) -> Seq<Seq<char>> {
    Seq::new(path.len(), |i: int| path[i]@)
}

impl View for Plan {
    type V = Intent;

    open spec fn view(&self) -> Intent {
        Intent {
            bearer: self.bearer@,
            method: self.method,
            path: steps(self.path@),
            body: match self.body {
                Some(value) => Some(value@),
                None => None,
            },
            answer: self.answer@,
        }
    }
}

/// A result with the plan in it taken as what it is.
pub open spec fn in_intent(r: Result<Plan, &'static str>) -> Result<Intent, &'static str> {
    match r {
        Ok(plan) => Ok(plan@),
        Err(e) => Err(e),
    }
}

/// A result with the bearer in it taken as what it is.
pub open spec fn in_credential(r: Result<Bearer, &'static str>) -> Result<Credential, &'static str> {
    match r {
        Ok(bearer) => Ok(bearer@),
        Err(e) => Err(e),
    }
}

/// The account that a call is bound to.
pub open spec fn account_in(p: Json) -> Result<Credential, &'static str> {
    match p.at("accountId"@) {
        Json::Text(s) => Ok(Credential::Account(s)),
        _ => Err("invalid_params"),
    }
}

/// The token of the account that a call is bound to.
pub fn token(p: &Value) -> (r: Result<Bearer, &'static str>)
    ensures
        in_credential(r) == account_in(p@),
{
    match p.get("accountId") {
        Some(value) => match value.as_str() {
            Some(s) => Ok(Bearer::Account(s.to_owned())),
            None => Err("invalid_params"),
        },
        None => Err("invalid_params"),
    }
}

/// What authorises asking whose a token is: the token that the caller gave, or
/// that of the account.
pub open spec fn asker_in(p: Json) -> Result<Credential, &'static str> {
    match token_of(p) {
        Ok(Some(s)) => Ok(Credential::Token(s)),
        Ok(None) => account_in(p),
        Err(e) => Err(e),
    }
}

/// The bearer for asking about the account, the one call that may be made
/// before an account is registered: a token just pasted or paid for, or the
/// account's own. No other call comes here, so a token that a caller gives can
/// authorise nothing but asking whose it is.
pub fn account_token(p: &Value) -> (r: Result<Bearer, &'static str>)
    ensures
        in_credential(r) == asker_in(p@),
{
    match explicit_token(p) {
        Ok(Some(explicit)) => Ok(Bearer::Token(explicit.to_owned())),
        Ok(None) => token(p),
        Err(e) => Err(e),
    }
}

/// A plan that is bound to an account.
pub open spec fn bound(
    p: Json,
    method: Method,
    path: Seq<Seq<char>>,
    body: Option<Json>,
    answer: Outcome,
) -> Result<Intent, &'static str> {
    match account_in(p) {
        Ok(bearer) => Ok(Intent { bearer, method, path, body, answer }),
        Err(e) => Err(e),
    }
}

fn bind(p: &Value, method: Method, path: Vec<String>, body: Option<Value>, answer: Answer) -> (r:
    Result<Plan, &'static str>)
    ensures
        in_intent(r) == bound(
            p@,
            method,
            steps(path@),
            match body {
                Some(value) => Some(value@),
                None => None,
            },
            answer@,
        ),
{
    match token(p) {
        Ok(bearer) => Ok(Plan { bearer, method, path, body, answer }),
        Err(e) => Err(e),
    }
}

/// One text.
pub open spec fn one_text(a: Seq<char>) -> Seq<Seq<char>> {
    Seq::empty().push(a)
}

/// Two texts.
pub open spec fn two_texts(a: Seq<char>, b: Seq<char>) -> Seq<Seq<char>> {
    one_text(a).push(b)
}

/// Three texts.
pub open spec fn three_texts(a: Seq<char>, b: Seq<char>, c: Seq<char>) -> Seq<Seq<char>> {
    two_texts(a, b).push(c)
}

/// Four texts.
pub open spec fn four_texts(a: Seq<char>, b: Seq<char>, c: Seq<char>, d: Seq<char>) -> Seq<Seq<char>> {
    three_texts(a, b, c).push(d)
}

fn path_of(parts: &[&str]) -> (r: Vec<String>)
    ensures
        steps(r@) == strings(parts@),
{
    let mut out: Vec<String> = Vec::new();
    for i in 0..parts.len()
        invariant
            out@.len() == i,
            forall|j: int| 0 <= j < i ==> (#[trigger] out@[j])@ == parts@[j]@,
    {
        out.push(parts[i].to_owned());
    }
    assert(steps(out@) =~= strings(parts@));
    out
}

fn one(a: &str) -> (r: Vec<String>)
    ensures
        steps(r@) == one_text(a@),
{
    let r = path_of(&[a]);
    assert(steps(r@) =~= one_text(a@));
    r
}

fn two(a: &str, b: &str) -> (r: Vec<String>)
    ensures
        steps(r@) == two_texts(a@, b@),
{
    let r = path_of(&[a, b]);
    assert(steps(r@) =~= two_texts(a@, b@));
    r
}

fn three(a: &str, b: &str, c: &str) -> (r: Vec<String>)
    ensures
        steps(r@) == three_texts(a@, b@, c@),
{
    let r = path_of(&[a, b, c]);
    assert(steps(r@) =~= three_texts(a@, b@, c@));
    r
}

fn four(a: &str, b: &str, c: &str, d: &str) -> (r: Vec<String>)
    ensures
        steps(r@) == four_texts(a@, b@, c@, d@),
{
    let r = path_of(&[a, b, c, d]);
    assert(steps(r@) =~= four_texts(a@, b@, c@, d@));
    r
}

fn only_one(p: &Value, a: &str) -> (r: bool)
    ensures
        r == allows(p@, one_text(a@)),
{
    let keys = [a];
    assert(strings(keys@) =~= one_text(a@));
    allowed(p, &keys).is_ok()
}

fn only_two(p: &Value, a: &str, b: &str) -> (r: bool)
    ensures
        r == allows(p@, two_texts(a@, b@)),
{
    let keys = [a, b];
    assert(strings(keys@) =~= two_texts(a@, b@));
    allowed(p, &keys).is_ok()
}

fn only_three(p: &Value, a: &str, b: &str, c: &str) -> (r: bool)
    ensures
        r == allows(p@, three_texts(a@, b@, c@)),
{
    let keys = [a, b, c];
    assert(strings(keys@) =~= three_texts(a@, b@, c@));
    allowed(p, &keys).is_ok()
}

/// A body with one field.
pub open spec fn body_with(name: Seq<char>, value: Json) -> Option<Json> {
    Some(Json::Record(Seq::empty().push((name, value))))
}

/// The plan for creating a mailbox.
pub open spec fn create_account(p: Json) -> Result<Intent, &'static str> {
    if !allows(p, two_texts("includeEmail"@, "includeToken"@)) {
        Err("invalid_params")
    } else {
        match (flag_of(p, "includeEmail"@), flag_of(p, "includeToken"@)) {
            (Ok(email), Ok(token)) => Ok(
                Intent {
                    bearer: Credential::Nobody,
                    method: Method::Post,
                    path: one_text("email"@),
                    body: Some(
                        Json::Record(
                            Seq::empty().push(("include_email"@, Json::Bool(email))).push(
                                ("include_token"@, Json::Bool(token)),
                            ),
                        ),
                    ),
                    answer: Outcome::Whole,
                },
            ),
            _ => Err("invalid_params"),
        }
    }
}

fn plan_create_account(p: &Value) -> (r: Result<Plan, &'static str>)
    ensures
        in_intent(r) == create_account(p@),
{
    if !only_two(p, "includeEmail", "includeToken") {
        return Err("invalid_params");
    }
    let email = boolean(p, "includeEmail")?;
    let token = boolean(p, "includeToken")?;
    let body = Members::new().with("include_email", Value::boolean(email)).with(
        "include_token",
        Value::boolean(token),
    ).object();
    Ok(
        Plan {
            bearer: Bearer::Nobody,
            method: Method::Post,
            path: one("email"),
            body: Some(body),
            answer: Answer::Whole,
        },
    )
}

/// The provider that a new invoice is to keep clear of, as a body.
pub open spec fn exclusion(p: Json) -> Result<Option<Json>, &'static str> {
    match text_of(p, "excludeProvider"@, false, 256) {
        Ok(s) => Ok(body_with("exclude_provider"@, text_or_null(s))),
        Err(e) => Err(e),
    }
}

fn exclude(p: &Value) -> (r: Result<Value, &'static str>)
    ensures
        match r {
            Ok(body) => exclusion(p@) == Ok::<Option<Json>, &'static str>(Some(body@)),
            Err(e) => exclusion(p@) == Err::<Option<Json>, &'static str>(e),
        },
{
    let provider = text(p, "excludeProvider", false, 256)?;
    Ok(Members::new().with("exclude_provider", optional(provider)).object())
}

/// The plan for a new invoice for a mailbox that is not paid for.
pub open spec fn signup_invoice(p: Json) -> Result<Intent, &'static str> {
    if !allows(p, two_texts("paymentHash"@, "excludeProvider"@)) {
        Err("invalid_params")
    } else {
        match (segment_of(p, "paymentHash"@), exclusion(p)) {
            (Ok(hash), Ok(body)) => Ok(
                Intent {
                    bearer: Credential::Nobody,
                    method: Method::Post,
                    path: three_texts("email"@, hash, "new-invoice"@),
                    body,
                    answer: Outcome::Whole,
                },
            ),
            _ => Err("invalid_params"),
        }
    }
}

fn plan_signup_invoice(p: &Value) -> (r: Result<Plan, &'static str>)
    ensures
        in_intent(r) == signup_invoice(p@),
{
    if !only_two(p, "paymentHash", "excludeProvider") {
        return Err("invalid_params");
    }
    let hash = segment(p, "paymentHash")?;
    let body = exclude(p)?;
    Ok(
        Plan {
            bearer: Bearer::Nobody,
            method: Method::Post,
            path: three("email", hash, "new-invoice"),
            body: Some(body),
            answer: Answer::Whole,
        },
    )
}

/// The plan for asking whether a mailbox has been paid for.
pub open spec fn payment_status(p: Json) -> Result<Intent, &'static str> {
    if !allows(p, one_text("paymentHash"@)) {
        Err("invalid_params")
    } else {
        match segment_of(p, "paymentHash"@) {
            Ok(hash) => Ok(
                Intent {
                    bearer: Credential::Nobody,
                    method: Method::Get,
                    path: two_texts("payment"@, hash),
                    body: None,
                    answer: Outcome::Whole,
                },
            ),
            Err(e) => Err(e),
        }
    }
}

fn plan_payment_status(p: &Value) -> (r: Result<Plan, &'static str>)
    ensures
        in_intent(r) == payment_status(p@),
{
    if !only_one(p, "paymentHash") {
        return Err("invalid_params");
    }
    let hash = segment(p, "paymentHash")?;
    Ok(
        Plan {
            bearer: Bearer::Nobody,
            method: Method::Get,
            path: two("payment", hash),
            body: None,
            answer: Answer::Whole,
        },
    )
}

/// The plan for asking about an account.
pub open spec fn account(p: Json) -> Result<Intent, &'static str> {
    if !allows(p, two_texts("accountId"@, "token"@)) {
        Err("invalid_params")
    } else {
        match asker_in(p) {
            Ok(bearer) => Ok(
                Intent {
                    bearer,
                    method: Method::Get,
                    path: one_text("account"@),
                    body: None,
                    answer: Outcome::Whole,
                },
            ),
            Err(e) => Err(e),
        }
    }
}

fn plan_account(p: &Value) -> (r: Result<Plan, &'static str>)
    ensures
        in_intent(r) == account(p@),
{
    if !only_two(p, "accountId", "token") {
        return Err("invalid_params");
    }
    let bearer = account_token(p)?;
    Ok(
        Plan {
            bearer,
            method: Method::Get,
            path: one("account"),
            body: None,
            answer: Answer::Whole,
        },
    )
}

/// Where the recent-sends log is.
pub open spec fn recent() -> Seq<Seq<char>> {
    three_texts("email"@, "sends"@, "recent"@)
}

/// The plan for a listing: the recent-sends log for the query `sent`, and the
/// message list for any other.
pub open spec fn list(p: Json) -> Result<Intent, &'static str> {
    if !allows(p, two_texts("accountId"@, "query"@)) {
        Err("invalid_params")
    } else {
        match text_of(p, "query"@, false, 64) {
            Ok(query) => if trimmed(query) == "sent"@ {
                bound(p, Method::Get, recent(), None, Outcome::Sends)
            } else {
                bound(p, Method::Get, one_text("emails"@), None, Outcome::Messages)
            },
            Err(e) => Err(e),
        }
    }
}

fn plan_list(p: &Value) -> (r: Result<Plan, &'static str>)
    ensures
        in_intent(r) == list(p@),
{
    if !only_two(p, "accountId", "query") {
        return Err("invalid_params");
    }
    let query = text(p, "query", false, 64)?;
    if same(query.trim(), "sent") {
        // The service keeps no archive of what was sent, only a short log of
        // its own recent outgoing payments.
        bind(p, Method::Get, three("email", "sends", "recent"), None, Answer::Sends)
    } else {
        bind(p, Method::Get, one("emails"), None, Answer::Messages)
    }
}

/// The plan for reading a message or a row of the recent-sends log.
pub open spec fn read(p: Json) -> Result<Intent, &'static str> {
    if !allows(p, two_texts("accountId"@, "id"@)) {
        Err("invalid_params")
    } else {
        match segment_of(p, "id"@) {
            Ok(id) => match hash_in(id) {
                Some(hash) => bound(p, Method::Get, recent(), None, Outcome::Send(hash)),
                None => bound(
                    p,
                    Method::Get,
                    two_texts("emails"@, id),
                    None,
                    Outcome::Message,
                ),
            },
            Err(e) => Err(e),
        }
    }
}

fn plan_read(p: &Value) -> (r: Result<Plan, &'static str>)
    ensures
        in_intent(r) == read(p@),
{
    if !only_two(p, "accountId", "id") {
        return Err("invalid_params");
    }
    let id = segment(p, "id")?;
    match sent_hash(id) {
        // No endpoint answers for one send by its hash; the recent log is all
        // there is, so the row is picked out of it.
        Some(hash) => bind(
            p,
            Method::Get,
            three("email", "sends", "recent"),
            None,
            Answer::Send(hash.to_owned()),
        ),
        None => bind(p, Method::Get, two("emails", id), None, Answer::Message),
    }
}

/// The index of the attachment that is asked for.
pub open spec fn attachment_index(p: Json) -> Option<usize> {
    match p.at("attachmentId"@) {
        Json::Text(s) => index_named(s),
        _ => None,
    }
}

/// The plan for an attachment of a message. A row of the recent-sends log has
/// none.
pub open spec fn attachment(p: Json) -> Result<Intent, &'static str> {
    if !allows(p, three_texts("accountId"@, "id"@, "attachmentId"@)) {
        Err("invalid_params")
    } else {
        match segment_of(p, "id"@) {
            Ok(id) => if hash_in(id) is Some {
                Err("lnemail_not_found")
            } else {
                match attachment_index(p) {
                    Some(index) => bound(
                        p,
                        Method::Get,
                        two_texts("emails"@, id),
                        None,
                        Outcome::Attachment(index),
                    ),
                    None => Err("invalid_params"),
                }
            },
            Err(e) => Err(e),
        }
    }
}

fn plan_attachment(p: &Value) -> (r: Result<Plan, &'static str>)
    ensures
        in_intent(r) == attachment(p@),
{
    if !only_three(p, "accountId", "id", "attachmentId") {
        return Err("invalid_params");
    }
    let id = segment(p, "id")?;
    if sent_hash(id).is_some() {
        return Err("lnemail_not_found");
    }
    let index: usize = match p.get("attachmentId") {
        Some(value) => match value.as_str() {
            Some(s) => match parse_index(s) {
                Some(index) => index,
                None => return Err("invalid_params"),
            },
            None => return Err("invalid_params"),
        },
        None => return Err("invalid_params"),
    };
    bind(p, Method::Get, two("emails", id), None, Answer::Attachment(index))
}

/// A message that may be deleted. The recent-sends log is the service's own
/// record of what it was paid to send, and nothing is removed from it.
pub open spec fn deletable(value: Json) -> Result<Seq<char>, &'static str> {
    match segment_in(value) {
        Ok(id) => if hash_in(id) is Some {
            Err("lnemail_sent_log_readonly")
        } else {
            Ok(id)
        },
        Err(e) => Err(e),
    }
}

fn deletable_id(value: &Value) -> (r: Result<&str, &'static str>)
    ensures
        in_characters(r) == deletable(value@),
{
    let id = segment_value(value)?;
    if sent_hash(id).is_some() {
        return Err("lnemail_sent_log_readonly");
    }
    Ok(id)
}

/// The plan for deleting a message.
pub open spec fn delete_one(p: Json) -> Result<Intent, &'static str> {
    if !allows(p, two_texts("accountId"@, "id"@)) {
        Err("invalid_params")
    } else {
        match deletable(p.at("id"@)) {
            Ok(id) => bound(
                p,
                Method::Delete,
                two_texts("emails"@, id),
                None,
                Outcome::Whole,
            ),
            Err(e) => Err(e),
        }
    }
}

fn plan_delete(p: &Value) -> (r: Result<Plan, &'static str>)
    ensures
        in_intent(r) == delete_one(p@),
{
    if !only_two(p, "accountId", "id") {
        return Err("invalid_params");
    }
    let id = match p.get("id") {
        Some(value) => deletable_id(value)?,
        None => return Err("invalid_params"),
    };
    bind(p, Method::Delete, two("emails", id), None, Answer::Whole)
}

/// The first `n` of the messages that are to be deleted, or what is wrong with
/// the first of them that may not be.
pub open spec fn all_deletable(ids: Seq<Json>, n: int) -> Result<Seq<Json>, &'static str>
    decreases n,
{
    if n <= 0 {
        Ok(Seq::empty())
    } else {
        match all_deletable(ids, n - 1) {
            Ok(checked) => match deletable(ids[n - 1]) {
                Ok(id) => Ok(checked.push(Json::Text(id))),
                Err(e) => Err(e),
            },
            Err(e) => Err(e),
        }
    }
}

proof fn first_failure_stands(ids: Seq<Json>, i: int, n: int)
    requires
        0 <= i <= n,
        all_deletable(ids, i) is Err,
    ensures
        all_deletable(ids, n) == all_deletable(ids, i),
    decreases n,
{
    if i < n {
        first_failure_stands(ids, i, n - 1);
    }
}

/// The plan for deleting several messages in one request.
pub open spec fn delete_many(p: Json) -> Result<Intent, &'static str> {
    if !allows(p, two_texts("accountId"@, "ids"@)) {
        Err("invalid_params")
    } else {
        match p.at("ids"@) {
            Json::List(ids) => if ids.len() == 0 || ids.len() > MAX_DELETE_BATCH {
                Err("invalid_params")
            } else {
                match all_deletable(ids, ids.len() as int) {
                    Ok(checked) => bound(
                        p,
                        Method::Delete,
                        one_text("emails"@),
                        body_with("email_ids"@, Json::List(checked)),
                        Outcome::Whole,
                    ),
                    Err(e) => Err(e),
                }
            },
            _ => Err("invalid_params"),
        }
    }
}

fn plan_delete_many(p: &Value) -> (r: Result<Plan, &'static str>)
    ensures
        in_intent(r) == delete_many(p@),
{
    if !only_two(p, "accountId", "ids") {
        return Err("invalid_params");
    }
    let ids = match p.get("ids") {
        Some(value) => match value.as_array() {
            Some(ids) => ids,
            None => return Err("invalid_params"),
        },
        None => return Err("invalid_params"),
    };
    let ghost all = list_of(ids@);
    if ids.len() == 0 || ids.len() > MAX_DELETE_BATCH {
        return Err("invalid_params");
    }
    let mut checked = Items::new();
    for i in 0..ids.len()
        invariant
            all == list_of(ids@),
            p@.at("ids"@) == Json::List(all),
            allows(p@, two_texts("accountId"@, "ids"@)),
            0 < all.len() <= MAX_DELETE_BATCH,
            all_deletable(all, i as int) == Ok::<Seq<Json>, &'static str>(checked@),
    {
        assert(ids@[i as int]@ == all[i as int]);
        match deletable_id(&ids[i]) {
            Ok(id) => {
                checked = checked.with(Value::text(id));
            },
            Err(e) => {
                proof {
                    assert(all_deletable(all, i + 1) == Err::<Seq<Json>, &'static str>(e));
                    first_failure_stands(all, i + 1, all.len() as int);
                }
                return Err(e);
            },
        }
    }
    let body = Members::new().with("email_ids", checked.array()).object();
    bind(p, Method::Delete, one("emails"), Some(body), Answer::Whole)
}

/// The plan for the recent-sends log as the service has it.
pub open spec fn recent_sends(p: Json) -> Result<Intent, &'static str> {
    if !allows(p, one_text("accountId"@)) {
        Err("invalid_params")
    } else {
        bound(p, Method::Get, recent(), None, Outcome::Whole)
    }
}

fn plan_recent_sends(p: &Value) -> (r: Result<Plan, &'static str>)
    ensures
        in_intent(r) == recent_sends(p@),
{
    if !only_one(p, "accountId") {
        return Err("invalid_params");
    }
    bind(p, Method::Get, three("email", "sends", "recent"), None, Answer::Whole)
}

/// The plan for sending a message: a complete RFC 822 message, taken apart
/// into the fields that the endpoint has.
pub open spec fn send(p: Json) -> Result<Intent, &'static str> {
    if !allows(p, two_texts("accountId"@, "raw"@)) {
        Err("invalid_params")
    } else {
        match text_of(p, "raw"@, true, MAX_RAW_MESSAGE_ENCODED as nat) {
            Ok(encoded) => send_bytes(p, base64url_read(encoded)),
            Err(e) => Err(e),
        }
    }
}

/// The plan for sending a message, once what was read from it as base64 is
/// known.
pub open spec fn send_bytes(p: Json, read: Option<Seq<u8>>) -> Result<Intent, &'static str> {
    match read {
        Some(bytes) => if bytes.len() <= MAX_RAW_MESSAGE_DECODED {
            send_fields(p, decoded(bytes))
        } else {
            Err("invalid_params")
        },
        None => Err("invalid_params"),
    }
}

/// The plan for sending a message whose fields are known.
pub open spec fn send_fields(p: Json, fields: Result<Json, &'static str>) -> Result<
    Intent,
    &'static str,
> {
    match fields {
        Ok(fields) => bound(
            p,
            Method::Post,
            two_texts("email"@, "send"@),
            Some(fields),
            Outcome::Whole,
        ),
        Err(e) => Err(e),
    }
}

/// Plans sending a message whose fields are known.
pub fn plan_send_fields(p: &Value, fields: Result<Value, &'static str>) -> (r: Result<
    Plan,
    &'static str,
>)
    ensures
        in_intent(r) == send_fields(p@, in_json(fields)),
{
    match fields {
        Ok(fields) => bind(p, Method::Post, two("email", "send"), Some(fields), Answer::Whole),
        Err(e) => Err(e),
    }
}

/// Plans sending a message, once what was read from it as base64 is known.
pub fn plan_send_bytes(p: &Value, read: Option<Vec<u8>>) -> (r: Result<Plan, &'static str>)
    ensures
        in_intent(r) == send_bytes(p@, seq_of(read)),
{
    match read {
        Some(bytes) => {
            if bytes.len() > MAX_RAW_MESSAGE_DECODED {
                return Err("invalid_params");
            }
            plan_send_fields(p, decode_outgoing(bytes.as_slice()))
        },
        None => Err("invalid_params"),
    }
}

fn plan_send(p: &Value) -> (r: Result<Plan, &'static str>)
    ensures
        in_intent(r) == send(p@),
{
    if !only_two(p, "accountId", "raw") {
        return Err("invalid_params");
    }
    let encoded = text(p, "raw", true, MAX_RAW_MESSAGE_ENCODED)?;
    plan_send_bytes(p, decode_url(encoded))
}

/// The plan for asking how far a send is.
pub open spec fn send_status(p: Json) -> Result<Intent, &'static str> {
    if !allows(p, two_texts("accountId"@, "paymentHash"@)) {
        Err("invalid_params")
    } else {
        match segment_of(p, "paymentHash"@) {
            Ok(hash) => bound(
                p,
                Method::Get,
                four_texts("email"@, "send"@, "status"@, hash),
                None,
                Outcome::Whole,
            ),
            Err(e) => Err(e),
        }
    }
}

fn plan_send_status(p: &Value) -> (r: Result<Plan, &'static str>)
    ensures
        in_intent(r) == send_status(p@),
{
    if !only_two(p, "accountId", "paymentHash") {
        return Err("invalid_params");
    }
    let hash = segment(p, "paymentHash")?;
    bind(p, Method::Get, four("email", "send", "status", hash), None, Answer::Whole)
}

/// The plan for a new invoice for something that an account has asked for.
pub open spec fn new_invoice(p: Json, a: Seq<char>, b: Seq<char>) -> Result<Intent, &'static str> {
    if !allows(p, three_texts("accountId"@, "paymentHash"@, "excludeProvider"@)) {
        Err("invalid_params")
    } else {
        match (segment_of(p, "paymentHash"@), exclusion(p)) {
            (Ok(hash), Ok(body)) => bound(
                p,
                Method::Post,
                four_texts(a, b, hash, "new-invoice"@),
                body,
                Outcome::Whole,
            ),
            _ => Err("invalid_params"),
        }
    }
}

fn plan_new_invoice(p: &Value, a: &str, b: &str) -> (r: Result<Plan, &'static str>)
    ensures
        in_intent(r) == new_invoice(p@, a@, b@),
{
    if !only_three(p, "accountId", "paymentHash", "excludeProvider") {
        return Err("invalid_params");
    }
    let hash = segment(p, "paymentHash")?;
    let body = exclude(p)?;
    bind(p, Method::Post, four(a, b, hash, "new-invoice"), Some(body), Answer::Whole)
}

/// The body that says for how many years an account is renewed: one to ten, or
/// what the service has as its own.
pub open spec fn years_body(p: Json) -> Result<Record, &'static str> {
    match p.at("years"@) {
        Json::Null => Ok(Seq::empty()),
        Json::Integer(n) => if 1 <= n <= 10 {
            Ok(Seq::empty().push(("years"@, Json::Integer(n))))
        } else {
            Err("invalid_params")
        },
        _ => Err("invalid_params"),
    }
}

/// The plan for the invoice of a renewal.
pub open spec fn renewal_invoice(p: Json) -> Result<Intent, &'static str> {
    if !allows(p, two_texts("accountId"@, "years"@)) {
        Err("invalid_params")
    } else {
        match years_body(p) {
            Ok(body) => bound(
                p,
                Method::Post,
                two_texts("account"@, "renew"@),
                Some(Json::Record(body)),
                Outcome::Whole,
            ),
            Err(e) => Err(e),
        }
    }
}

fn plan_renewal_invoice(p: &Value) -> (r: Result<Plan, &'static str>)
    ensures
        in_intent(r) == renewal_invoice(p@),
{
    if !only_two(p, "accountId", "years") {
        return Err("invalid_params");
    }
    let body = match p.get("years") {
        None | Some(Value::Null) => Members::new(),
        Some(value) => match value.as_u64() {
            Some(years) => if 1 <= years && years <= 10 {
                Members::new().with("years", Value::unsigned(years))
            } else {
                return Err("invalid_params");
            },
            None => return Err("invalid_params"),
        },
    };
    bind(p, Method::Post, two("account", "renew"), Some(body.object()), Answer::Whole)
}

/// The plan for asking how far a renewal is.
pub open spec fn renewal_status(p: Json) -> Result<Intent, &'static str> {
    if !allows(p, two_texts("accountId"@, "paymentHash"@)) {
        Err("invalid_params")
    } else {
        match segment_of(p, "paymentHash"@) {
            Ok(hash) => bound(
                p,
                Method::Get,
                four_texts("account"@, "renew"@, "status"@, hash),
                None,
                Outcome::Whole,
            ),
            Err(e) => Err(e),
        }
    }
}

fn plan_renewal_status(p: &Value) -> (r: Result<Plan, &'static str>)
    ensures
        in_intent(r) == renewal_status(p@),
{
    if !only_two(p, "accountId", "paymentHash") {
        return Err("invalid_params");
    }
    let hash = segment(p, "paymentHash")?;
    bind(p, Method::Get, four("account", "renew", "status", hash), None, Answer::Whole)
}

/// The plan for a call.
pub open spec fn planned(method: Seq<char>, p: Json) -> Result<Intent, &'static str> {
    if method == "lnemail.createAccount"@ {
        create_account(p)
    } else if method == "lnemail.signupInvoice"@ {
        signup_invoice(p)
    } else if method == "lnemail.paymentStatus"@ {
        payment_status(p)
    } else if method == "lnemail.account"@ {
        account(p)
    } else if method == "lnemail.list"@ {
        list(p)
    } else if method == "lnemail.read"@ {
        read(p)
    } else if method == "lnemail.attachment"@ {
        attachment(p)
    } else if method == "lnemail.delete"@ {
        delete_one(p)
    } else if method == "lnemail.deleteMany"@ {
        delete_many(p)
    } else if method == "lnemail.recentSends"@ {
        recent_sends(p)
    } else if method == "lnemail.send"@ {
        send(p)
    } else if method == "lnemail.sendStatus"@ {
        send_status(p)
    } else if method == "lnemail.sendInvoice"@ {
        new_invoice(p, "email"@, "send"@)
    } else if method == "lnemail.renewalInvoice"@ {
        renewal_invoice(p)
    } else if method == "lnemail.renewalStatus"@ {
        renewal_status(p)
    } else if method == "lnemail.renewalReissue"@ {
        new_invoice(p, "account"@, "renew"@)
    } else {
        Err("unknown_method")
    }
}

/// Checks a call and plans the request that answers it. Every parameter is
/// checked here, before any credential is looked up.
pub fn call(method: &str, p: &Value) -> (r: Result<Plan, &'static str>)
    ensures
        in_intent(r) == planned(method@, p@),
{
    if same(method, "lnemail.createAccount") {
        plan_create_account(p)
    } else if same(method, "lnemail.signupInvoice") {
        plan_signup_invoice(p)
    } else if same(method, "lnemail.paymentStatus") {
        plan_payment_status(p)
    } else if same(method, "lnemail.account") {
        plan_account(p)
    } else if same(method, "lnemail.list") {
        plan_list(p)
    } else if same(method, "lnemail.read") {
        plan_read(p)
    } else if same(method, "lnemail.attachment") {
        plan_attachment(p)
    } else if same(method, "lnemail.delete") {
        plan_delete(p)
    } else if same(method, "lnemail.deleteMany") {
        plan_delete_many(p)
    } else if same(method, "lnemail.recentSends") {
        plan_recent_sends(p)
    } else if same(method, "lnemail.send") {
        plan_send(p)
    } else if same(method, "lnemail.sendStatus") {
        plan_send_status(p)
    } else if same(method, "lnemail.sendInvoice") {
        plan_new_invoice(p, "email", "send")
    } else if same(method, "lnemail.renewalInvoice") {
        plan_renewal_invoice(p)
    } else if same(method, "lnemail.renewalStatus") {
        plan_renewal_status(p)
    } else if same(method, "lnemail.renewalReissue") {
        plan_new_invoice(p, "account", "renew")
    } else {
        Err("unknown_method")
    }
}

/// Whether a request of this kind may go with a body, or without one.
pub open spec fn carries(method: Method, body: bool) -> bool {
    match method {
        Method::Get => !body,
        Method::Post => body,
        Method::Delete => true,
    }
}

/// The most bytes in the body of a request.
pub open spec fn body_limit(method: Method) -> int {
    if method == Method::Post {
        MAX_POST as int
    } else {
        MAX_INPUT as int
    }
}

/// Whether a plan, the text of its body and a token may make a request.
pub open spec fn sendable(plan: Intent, body: Option<Seq<char>>, token: Seq<char>) -> bool {
    &&& request_ok(plan.path, token)
    &&& match body {
        Some(s) => bytes_of(s).len() <= body_limit(plan.method),
        None => true,
    }
}

/// The request of a plan, once its body has been written as text and the token
/// that authorises it is known. The token is empty where the plan asks for
/// none.
pub fn request(plan: &Plan, body: Option<String>, token: &str) -> (r: Result<Request, &'static str>)
    requires
        carries(plan.method, body is Some),
    ensures
        match r {
            Ok(q) => sendable(plan@, body_text(body), token@) && requests(
                q,
                plan.method,
                plan@.path,
                body_text(body),
                token@,
            ),
            Err(e) => !sendable(plan@, body_text(body), token@) && e == "lnemail_invalid_input",
        },
{
    let mut path: Vec<&str> = Vec::new();
    for i in 0..plan.path.len()
        invariant
            path@.len() == i,
            forall|j: int| 0 <= j < i ==> (#[trigger] path@[j])@ == plan.path@[j]@,
    {
        path.push(plan.path[i].as_str());
    }
    assert(strings(path@) =~= plan@.path);
    match (plan.method, body) {
        (Method::Post, Some(text)) => post(path.as_slice(), text, token),
        (Method::Delete, body) => delete(path.as_slice(), body, token),
        _ => get(path.as_slice(), token),
    }
}

/// A row of a listing: of the recent-sends log, or of the message list.
pub open spec fn row_of(sends: bool, entry: Json) -> Json {
    if sends {
        sent(entry)
    } else {
        listed(entry)
    }
}

/// The rows of a listing.
pub open spec fn rows_of(sends: bool, entries: Seq<Json>) -> Seq<Json> {
    entries.map_values(|entry: Json| row_of(sends, entry))
}

/// A listing of rows.
pub open spec fn listing(rows: Seq<Json>) -> Json {
    let ids = Json::List(rows.map_values(|row: Json| row.at("id"@)));
    Json::Record(
        Seq::empty().push(("ids"@, ids)).push(("messages"@, Json::List(rows))).push(
            ("threadIds"@, ids),
        ).push(("nextPageToken"@, Json::Text(""@))).push(
            ("estimate"@, Json::Integer(rows.len() as int)),
        ),
    )
}

/// The first row of the recent-sends log with this payment hash.
pub open spec fn send_named(entries: Seq<Json>, hash: Seq<char>) -> Option<Json>
    decreases entries.len(),
{
    if entries.len() == 0 {
        None
    } else if entries[0].at("payment_hash"@) == Json::Text(hash) {
        Some(entries[0])
    } else {
        send_named(entries.drop_first(), hash)
    }
}

/// What is made of a reply.
pub open spec fn concluded(answer: Outcome, reply: Json) -> Result<Json, &'static str> {
    match answer {
        Outcome::Whole => Ok(reply),
        Outcome::Sends => match reply.at("sends"@) {
            Json::List(entries) => Ok(listing(rows_of(true, entries))),
            _ => Err("lnemail_invalid_response"),
        },
        Outcome::Messages => match reply.at("emails"@) {
            Json::List(entries) => Ok(listing(rows_of(false, entries))),
            _ => Err("lnemail_invalid_response"),
        },
        Outcome::Send(hash) => match reply.at("sends"@) {
            Json::List(entries) => match send_named(entries, hash) {
                Some(entry) => Ok(sent_opened(entry)),
                None => Err("lnemail_not_found"),
            },
            _ => Err("lnemail_invalid_response"),
        },
        Outcome::Message => Ok(opened(reply)),
        Outcome::Attachment(index) => if index < attachments_in(reply).len() {
            Ok(body_of(attached_bytes(attachments_in(reply)[index as int])))
        } else {
            Err("lnemail_not_found")
        },
    }
}

proof fn row_id(sends: bool, entry: Json)
    ensures
        row_of(sends, entry).at("id"@) is Text,
{
    broadcast use member_of_push;

    reveal_strlit("id");
    reveal_strlit("threadId");
    reveal_strlit("labelIds");
    reveal_strlit("internalDate");
    reveal_strlit("sizeEstimate");
    reveal_strlit("snippet");
    reveal_strlit("payload");
}

/// The id of a row.
fn id_of(row: &Value) -> (r: Value)
    requires
        row@.at("id"@) is Text,
    ensures
        r@ == row@.at("id"@),
{
    match row.get("id") {
        Some(value) => match value.as_str() {
            Some(s) => Value::text(s),
            None => Value::null(),
        },
        None => Value::null(),
    }
}

/// The listing of some entries.
fn list_entries(sends: bool, entries: &Vec<Value>) -> (r: Value)
    ensures
        r@ == listing(rows_of(sends, list_of(entries@))),
{
    let ghost all = list_of(entries@);
    let ghost rows = rows_of(sends, all);
    let count: usize = entries.len();
    let mut ids = Items::new();
    let mut messages = Items::new();
    let mut thread_ids = Items::new();
    for i in 0..count
        invariant
            count == entries@.len(),
            all == list_of(entries@),
            rows == rows_of(sends, all),
            messages@ =~= rows.take(i as int),
            ids@ =~= rows.take(i as int).map_values(|row: Json| row.at("id"@)),
            thread_ids@ == ids@,
    {
        let row = if sends {
            sent_row(&entries[i])
        } else {
            list_row(&entries[i])
        };
        proof {
            assert(entries@[i as int]@ == all[i as int]);
            assert(row@ == rows[i as int]);
            row_id(sends, all[i as int]);
            assert(rows.take(i + 1) =~= rows.take(i as int).push(row@));
        }
        ids = ids.with(id_of(&row));
        thread_ids = thread_ids.with(id_of(&row));
        messages = messages.with(row);
    }
    assert(rows.take(count as int) =~= rows);
    Members::new().with("ids", ids.array()).with("messages", messages.array()).with(
        "threadIds",
        thread_ids.array(),
    ).with("nextPageToken", Value::text("")).with("estimate", Value::unsigned(count as u64)).object()
}

/// The first row of the recent-sends log with this payment hash, opened.
fn open_send(entries: &Vec<Value>, hash: &str) -> (r: Result<Value, &'static str>)
    ensures
        in_json(r) == (match send_named(list_of(entries@), hash@) {
            Some(entry) => Ok::<Json, &'static str>(sent_opened(entry)),
            None => Err("lnemail_not_found"),
        }),
{
    let ghost all = list_of(entries@);
    assert(all.skip(0) =~= all);
    for i in 0..entries.len()
        invariant
            all == list_of(entries@),
            send_named(all, hash@) == send_named(all.skip(i as int), hash@),
    {
        proof {
            assert(all.skip(i as int)[0] == entries@[i as int]@);
            assert(all.skip(i as int).drop_first() =~= all.skip(i + 1));
        }
        match entries[i].get("payment_hash") {
            Some(value) => match value.as_str() {
                Some(s) => {
                    if same(s, hash) {
                        return Ok(sent_message(&entries[i]));
                    }
                },
                None => {},
            },
            None => {},
        }
    }
    assert(all.skip(entries@.len() as int).len() == 0);
    Err("lnemail_not_found")
}

fn list_in<'a>(reply: &'a Value, key: &str) -> (r: Result<&'a Vec<Value>, &'static str>)
    ensures
        match r {
            Ok(entries) => reply@.at(key@) == Json::List(list_of(entries@)),
            Err(e) => !(reply@.at(key@) is List) && e == "lnemail_invalid_response",
        },
{
    match reply.get(key) {
        Some(value) => match value.as_array() {
            Some(entries) => Ok(entries),
            None => Err("lnemail_invalid_response"),
        },
        None => Err("lnemail_invalid_response"),
    }
}

/// Makes the answer to a call of the reply to its request.
pub fn conclude(answer: &Answer, reply: Value) -> (r: Result<Value, &'static str>)
    ensures
        in_json(r) == concluded(answer@, reply@),
{
    match answer {
        Answer::Whole => Ok(reply),
        Answer::Sends => match list_in(&reply, "sends") {
            Ok(entries) => Ok(list_entries(true, entries)),
            Err(e) => Err(e),
        },
        Answer::Messages => match list_in(&reply, "emails") {
            Ok(entries) => Ok(list_entries(false, entries)),
            Err(e) => Err(e),
        },
        Answer::Send(hash) => match list_in(&reply, "sends") {
            Ok(entries) => open_send(entries, hash.as_str()),
            Err(e) => Err(e),
        },
        Answer::Message => Ok(full_message(&reply)),
        Answer::Attachment(index) => attachment_data(&reply, *index),
    }
}

} // verus!
