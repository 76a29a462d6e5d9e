use base64::engine::general_purpose::URL_SAFE_NO_PAD;
use base64::Engine;
use lnemail::call::{
    call, conclude, plan_send_bytes, request, Answer, Bearer, Plan, MAX_DELETE_BATCH,
    MAX_RAW_MESSAGE_DECODED,
};
use lnemail::http::{Method, MAX_INPUT};
use lnemail::json::{Field, Number, Value};
use lnemail::resource::{full_message, list_row, sent_message, sent_row};

const ACCOUNT: &str = "lnemail:user@example.org";

fn s(text: &str) -> Value {
    Value::String(text.to_string())
}

fn n(number: u64) -> Value {
    Value::Number(Number::Unsigned(number))
}

fn list(items: Vec<Value>) -> Value {
    Value::Array(items)
}

fn obj(fields: Vec<(&str, Value)>) -> Value {
    Value::Object(
        fields
            .into_iter()
            .map(|(name, value)| Field { name: name.to_string(), value })
            .collect(),
    )
}

/// The parameters of a call that is bound to an account.
fn bound(fields: Vec<(&'static str, Value)>) -> Value {
    let mut all = vec![("accountId", s(ACCOUNT))];
    all.extend(fields);
    obj(all)
}

/// Stands for the store of credentials, which knows no account but those of
/// this service and holds no token for any.
fn refuses_malformed_accounts(plan: &Plan) -> bool {
    match &plan.bearer {
        Bearer::Account(account) => !account.starts_with("lnemail:"),
        _ => false,
    }
}

fn check(plan: &Plan, method: Method, path: &[&str], body: Option<Value>, answer: Answer) {
    assert_eq!(plan.method, method);
    assert_eq!(plan.path, path);
    assert_eq!(plan.body, body);
    assert_eq!(plan.answer, answer);
}

#[test]
fn every_method_validates_its_params_before_any_credential_lookup() {
    for (method, params) in [
        ("lnemail.createAccount", obj(vec![("unexpected", Value::Bool(true))])),
        ("lnemail.signupInvoice", obj(vec![("paymentHash", s("a/b"))])),
        ("lnemail.paymentStatus", obj(vec![("paymentHash", s(""))])),
        ("lnemail.account", obj(vec![("accountId", s("not-an-account"))])),
        ("lnemail.list", obj(vec![("accountId", s("not-an-account"))])),
        ("lnemail.read", obj(vec![("accountId", s("not-an-account")), ("id", s("abc"))])),
        ("lnemail.read", obj(vec![("accountId", s(ACCOUNT)), ("id", s(".."))])),
        ("lnemail.delete", obj(vec![("accountId", s("not-an-account")), ("id", s("abc"))])),
        (
            "lnemail.deleteMany",
            obj(vec![("accountId", s("not-an-account")), ("ids", list(vec![s("abc")]))]),
        ),
        ("lnemail.deleteMany", obj(vec![("accountId", s(ACCOUNT)), ("ids", list(vec![]))])),
        ("lnemail.recentSends", obj(vec![("accountId", s("not-an-account"))])),
        (
            "lnemail.send",
            obj(vec![
                ("accountId", s("not-an-account")),
                ("recipient", s("user@example.org")),
                ("subject", s("")),
                ("body", s("")),
            ]),
        ),
        (
            "lnemail.send",
            obj(vec![
                ("accountId", s(ACCOUNT)),
                ("recipient", s("bad")),
                ("subject", s("")),
                ("body", s("")),
            ]),
        ),
        (
            "lnemail.sendStatus",
            obj(vec![("accountId", s("not-an-account")), ("paymentHash", s("abc"))]),
        ),
        (
            "lnemail.sendInvoice",
            obj(vec![("accountId", s("not-an-account")), ("paymentHash", s("abc"))]),
        ),
        ("lnemail.unknown", obj(vec![])),
    ] {
        let refused = match call(method, &params) {
            Ok(plan) => refuses_malformed_accounts(&plan),
            Err(_) => true,
        };
        assert!(refused, "{method} accepted {params:?}");
    }
}

#[test]
fn unknown_method_is_refused() {
    assert_eq!(call("lnemail.bogus", &obj(vec![])), Err("unknown_method"));
}

#[test]
fn a_bad_query_is_refused_before_any_credential_lookup() {
    for bad in [n(1), s("a\0b"), s(&"q".repeat(65))] {
        assert_eq!(call("lnemail.list", &bound(vec![("query", bad)])), Err("invalid_params"));
    }
}

#[test]
fn a_mailbox_is_made_and_paid_for_without_a_token() {
    let plan = call(
        "lnemail.createAccount",
        &obj(vec![("includeEmail", Value::Bool(true))]),
    )
    .unwrap();
    assert_eq!(plan.bearer, Bearer::Nobody);
    let body = obj(vec![
        ("include_email", Value::Bool(true)),
        ("include_token", Value::Bool(false)),
    ]);
    check(&plan, Method::Post, &["email"], Some(body), Answer::Whole);
    let plan = call(
        "lnemail.signupInvoice",
        &obj(vec![("paymentHash", s("abc")), ("excludeProvider", s("p"))]),
    )
    .unwrap();
    assert_eq!(plan.bearer, Bearer::Nobody);
    let body = obj(vec![("exclude_provider", s("p"))]);
    check(&plan, Method::Post, &["email", "abc", "new-invoice"], Some(body), Answer::Whole);
    let plan = call("lnemail.paymentStatus", &obj(vec![("paymentHash", s("abc"))])).unwrap();
    assert_eq!(plan.bearer, Bearer::Nobody);
    check(&plan, Method::Get, &["payment", "abc"], None, Answer::Whole);
}

#[test]
fn a_given_token_is_used_for_the_account_alone() {
    let plan = call("lnemail.account", &obj(vec![("token", s("t"))])).unwrap();
    assert_eq!(plan.bearer, Bearer::Token("t".to_string()));
    check(&plan, Method::Get, &["account"], None, Answer::Whole);
    let plan = call("lnemail.account", &bound(vec![])).unwrap();
    assert_eq!(plan.bearer, Bearer::Account(ACCOUNT.to_string()));
    assert_eq!(call("lnemail.account", &obj(vec![])), Err("invalid_params"));
    assert_eq!(call("lnemail.account", &bound(vec![("token", s(""))])), Err("invalid_params"));
    for method in ["lnemail.list", "lnemail.recentSends", "lnemail.renewalInvoice"] {
        assert_eq!(call(method, &bound(vec![("token", s("t"))])), Err("invalid_params"));
    }
}

#[test]
fn the_query_decides_what_is_listed() {
    let plan = call("lnemail.list", &bound(vec![("query", s(" sent\n"))])).unwrap();
    assert_eq!(plan.bearer, Bearer::Account(ACCOUNT.to_string()));
    check(&plan, Method::Get, &["email", "sends", "recent"], None, Answer::Sends);
    for query in [s("inbox"), s(""), Value::Null, s("Sent")] {
        let plan = call("lnemail.list", &bound(vec![("query", query)])).unwrap();
        check(&plan, Method::Get, &["emails"], None, Answer::Messages);
    }
}

#[test]
fn a_message_and_a_send_are_read_at_different_places() {
    let plan = call("lnemail.read", &bound(vec![("id", s("abc"))])).unwrap();
    check(&plan, Method::Get, &["emails", "abc"], None, Answer::Message);
    let plan = call("lnemail.read", &bound(vec![("id", s("send-abc"))])).unwrap();
    check(
        &plan,
        Method::Get,
        &["email", "sends", "recent"],
        None,
        Answer::Send("abc".to_string()),
    );
}

#[test]
fn an_attachment_is_asked_for_by_its_index() {
    let ask = |id: &str, index: &str| {
        call(
            "lnemail.attachment",
            &bound(vec![("id", s(id)), ("attachmentId", s(index))]),
        )
    };
    let plan = ask("abc", "2").unwrap();
    check(&plan, Method::Get, &["emails", "abc"], None, Answer::Attachment(2));
    assert_eq!(ask("abc", "+7").unwrap().answer, Answer::Attachment(7));
    assert_eq!(ask("send-abc", "0"), Err("lnemail_not_found"));
    assert_eq!(ask("send-abc", "x"), Err("lnemail_not_found"));
    for bad in ["", "x", "-1", "1 ", "99999999999999999999"] {
        assert_eq!(ask("abc", bad), Err("invalid_params"));
    }
    assert_eq!(call("lnemail.attachment", &bound(vec![("id", s("abc"))])), Err("invalid_params"));
}

#[test]
fn the_log_of_sends_is_never_deleted_from() {
    let plan = call("lnemail.delete", &bound(vec![("id", s("abc"))])).unwrap();
    check(&plan, Method::Delete, &["emails", "abc"], None, Answer::Whole);
    assert_eq!(
        call("lnemail.delete", &bound(vec![("id", s("send-abc"))])),
        Err("lnemail_sent_log_readonly")
    );
    let many = |ids: Vec<Value>| call("lnemail.deleteMany", &bound(vec![("ids", list(ids))]));
    let plan = many(vec![s("a"), s("b")]).unwrap();
    let body = obj(vec![("email_ids", list(vec![s("a"), s("b")]))]);
    check(&plan, Method::Delete, &["emails"], Some(body), Answer::Whole);
    assert_eq!(many(vec![s("a"), s("send-b"), s("..")]), Err("lnemail_sent_log_readonly"));
    assert_eq!(many(vec![s("a"), s(".."), s("send-b")]), Err("invalid_params"));
    assert_eq!(many(vec![n(1)]), Err("invalid_params"));
    assert!(many((0..MAX_DELETE_BATCH).map(|_| s("a")).collect()).is_ok());
    assert_eq!(
        many((0..MAX_DELETE_BATCH + 1).map(|_| s("a")).collect()),
        Err("invalid_params")
    );
    assert_eq!(call("lnemail.deleteMany", &bound(vec![("ids", s("a"))])), Err("invalid_params"));
}

#[test]
fn a_message_is_taken_apart_before_it_is_sent() {
    let raw = |text: &str| bound(vec![("raw", s(&URL_SAFE_NO_PAD.encode(text)))]);
    let plan = call("lnemail.send", &raw("To: a@example.org\r\nSubject: Hi\r\n\r\nbody")).unwrap();
    assert_eq!(plan.bearer, Bearer::Account(ACCOUNT.to_string()));
    assert_eq!(plan.method, Method::Post);
    assert_eq!(plan.path, ["email", "send"]);
    let body = plan.body.unwrap();
    assert_eq!(body.get("recipient"), Some(&s("a@example.org")));
    assert_eq!(body.get("body"), Some(&s("body")));
    assert_eq!(
        call("lnemail.send", &raw("Subject: Hi\r\n\r\nbody")),
        Err("lnemail_recipient_required")
    );
    for bad in [s("a+b/"), s("YQ=="), Value::Null, n(1)] {
        assert_eq!(call("lnemail.send", &bound(vec![("raw", bad)])), Err("invalid_params"));
    }
}

#[test]
fn a_message_has_a_greatest_length() {
    let p = bound(vec![("raw", s(""))]);
    let mut raw = b"To: a@example.org\r\n\r\n".to_vec();
    raw.resize(MAX_RAW_MESSAGE_DECODED, b'x');
    assert!(plan_send_bytes(&p, Some(raw.clone())).is_ok());
    raw.push(b'x');
    assert_eq!(plan_send_bytes(&p, Some(raw)), Err("invalid_params"));
    assert_eq!(plan_send_bytes(&p, None), Err("invalid_params"));
}

#[test]
fn sends_and_renewals_are_followed_by_their_payment() {
    let hash = || bound(vec![("paymentHash", s("abc"))]);
    let plan = call("lnemail.sendStatus", &hash()).unwrap();
    check(&plan, Method::Get, &["email", "send", "status", "abc"], None, Answer::Whole);
    let none = || Some(obj(vec![("exclude_provider", Value::Null)]));
    let plan = call("lnemail.sendInvoice", &hash()).unwrap();
    check(&plan, Method::Post, &["email", "send", "abc", "new-invoice"], none(), Answer::Whole);
    let plan = call("lnemail.renewalStatus", &hash()).unwrap();
    check(&plan, Method::Get, &["account", "renew", "status", "abc"], None, Answer::Whole);
    let plan = call("lnemail.renewalReissue", &hash()).unwrap();
    check(&plan, Method::Post, &["account", "renew", "abc", "new-invoice"], none(), Answer::Whole);
    let plan = call("lnemail.recentSends", &bound(vec![])).unwrap();
    check(&plan, Method::Get, &["email", "sends", "recent"], None, Answer::Whole);
}

#[test]
fn an_account_is_renewed_for_one_to_ten_years() {
    let renew = |years: Value| call("lnemail.renewalInvoice", &bound(vec![("years", years)]));
    for years in [1, 10] {
        let plan = renew(n(years)).unwrap();
        let body = obj(vec![("years", n(years))]);
        check(&plan, Method::Post, &["account", "renew"], Some(body), Answer::Whole);
    }
    for none in [renew(Value::Null), call("lnemail.renewalInvoice", &bound(vec![]))] {
        assert_eq!(none.unwrap().body, Some(obj(vec![])));
    }
    let decimal = Value::Number(Number::Decimal("1.0".to_string()));
    let negative = Value::Number(Number::Negative(-1));
    for bad in [n(0), n(11), decimal, negative, s("1")] {
        assert_eq!(renew(bad), Err("invalid_params"));
    }
}

#[test]
fn a_plan_becomes_a_request() {
    let plan = call("lnemail.read", &bound(vec![("id", s("abc"))])).unwrap();
    let made = request(&plan, None, "t").unwrap();
    assert_eq!(made.method, Method::Get);
    assert_eq!(made.url, "https://lnemail.net/api/v1/emails/abc");
    assert_eq!(made.authorization.unwrap().value, b"Bearer t");
    assert_eq!(request(&plan, None, "a\nb"), Err("lnemail_invalid_input"));
    let plan = call("lnemail.createAccount", &obj(vec![])).unwrap();
    let made = request(&plan, Some("{}".to_string()), "").unwrap();
    assert_eq!(made.method, Method::Post);
    assert_eq!(made.body, Some("{}".to_string()));
    assert!(made.authorization.is_none());
    let plan = call("lnemail.delete", &bound(vec![("id", s("abc"))])).unwrap();
    let made = request(&plan, None, "t").unwrap();
    assert_eq!(made.method, Method::Delete);
    assert_eq!(
        request(&plan, Some("x".repeat(MAX_INPUT + 1)), "t"),
        Err("lnemail_invalid_input")
    );
}

fn sends() -> Value {
    let entry = |hash: &str| obj(vec![("payment_hash", s(hash)), ("subject", s(hash))]);
    obj(vec![("sends", list(vec![entry("a"), entry("b")]))])
}

#[test]
fn a_listing_names_its_rows() {
    let entry = |id: &str| obj(vec![("id", s(id))]);
    let reply = obj(vec![("emails", list(vec![entry("x"), entry("y")]))]);
    let ids = || list(vec![s("x"), s("y")]);
    assert_eq!(
        conclude(&Answer::Messages, reply),
        Ok(obj(vec![
            ("ids", ids()),
            ("messages", list(vec![list_row(&entry("x")), list_row(&entry("y"))])),
            ("threadIds", ids()),
            ("nextPageToken", s("")),
            ("estimate", n(2)),
        ]))
    );
    let listing = conclude(&Answer::Sends, sends()).unwrap();
    assert_eq!(listing.get("ids"), Some(&list(vec![s("send-a"), s("send-b")])));
    let rows = listing.get("messages").unwrap().as_array().unwrap();
    let reply = sends();
    let entries = reply.get("sends").unwrap().as_array().unwrap();
    assert_eq!(rows[1], sent_row(&entries[1]));
}

#[test]
fn a_reply_without_its_list_is_refused() {
    for answer in [Answer::Sends, Answer::Messages, Answer::Send("a".to_string())] {
        assert_eq!(conclude(&answer, obj(vec![])), Err("lnemail_invalid_response"));
        let wrong = obj(vec![("sends", s("x")), ("emails", s("x"))]);
        assert_eq!(conclude(&answer, wrong), Err("lnemail_invalid_response"));
    }
}

#[test]
fn a_listed_send_is_read_back_by_its_id() {
    let listing = conclude(&Answer::Sends, sends()).unwrap();
    let id = listing.get("ids").unwrap().as_array().unwrap()[1].as_str().unwrap();
    let plan = call("lnemail.read", &bound(vec![("id", s(id))])).unwrap();
    let message = conclude(&plan.answer, sends()).unwrap();
    let reply = sends();
    let entries = reply.get("sends").unwrap().as_array().unwrap();
    assert_eq!(message, sent_message(&entries[1]));
    assert_eq!(message.get("id"), Some(&s(id)));
    assert_eq!(
        conclude(&Answer::Send("c".to_string()), sends()),
        Err("lnemail_not_found")
    );
}

#[test]
fn a_message_and_its_attachment_come_of_one_reply() {
    let reply = || {
        obj(vec![
            ("id", s("m")),
            (
                "attachments",
                list(vec![obj(vec![("content", s("abc")), ("encoding", s("text"))])]),
            ),
        ])
    };
    assert_eq!(conclude(&Answer::Message, reply()), Ok(full_message(&reply())));
    assert_eq!(
        conclude(&Answer::Attachment(0), reply()),
        Ok(obj(vec![("size", n(3)), ("data", s("YWJj"))]))
    );
    assert_eq!(conclude(&Answer::Attachment(1), reply()), Err("lnemail_not_found"));
    assert_eq!(conclude(&Answer::Whole, reply()), Ok(reply()));
}
