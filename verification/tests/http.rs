use lnemail::http::{
    answer, authorization, delete, get, http_error, post, url, Ending, Framing, Method, Reply,
    MAX_INPUT, MAX_POST, MAX_RESPONSE,
};
use lnemail::json::{Field, Value};

#[test]
fn every_request_stays_on_the_fixed_lnemail_origin() {
    assert_eq!(url(&["emails"]).unwrap(), "https://lnemail.net/api/v1/emails");
    assert_eq!(
        url(&["emails", "abc-123"]).unwrap(),
        "https://lnemail.net/api/v1/emails/abc-123"
    );
    let long: Vec<&str> = std::iter::repeat_n("a", 9).collect();
    for bad in [vec![], vec![""], vec!["."], vec![".."], long] {
        assert!(url(&bad).is_err());
    }
}

#[test]
fn control_bytes_are_refused_before_any_request_is_built() {
    for value in ["a\nb", "a\rb", "a\0b", "a\u{7f}b"] {
        assert_eq!(url(&[value]), Err("lnemail_invalid_input"));
        assert_eq!(authorization(value), Err("lnemail_invalid_input"));
    }
}

#[test]
fn an_empty_token_carries_no_authorization_header() {
    assert!(authorization("").unwrap().is_none());
    assert!(authorization("secret").unwrap().is_some());
}

#[test]
fn a_token_is_carried_as_a_sensitive_bearer() {
    let header = authorization("secret").unwrap().unwrap();
    assert_eq!(header.value, b"Bearer secret");
    assert!(header.sensitive);
    assert!(authorization(&"t".repeat(MAX_INPUT)).is_ok());
    assert_eq!(authorization(&"t".repeat(MAX_INPUT + 1)), Err("lnemail_invalid_input"));
}

#[test]
fn a_path_entry_is_never_a_slash_path() {
    for bad in ["a/b", "/", "/a", "a/", "a/../b", "https://example.org"] {
        assert_eq!(url(&[bad]), Err("lnemail_invalid_input"));
        assert_eq!(url(&["emails", bad]), Err("lnemail_invalid_input"));
        assert_eq!(get(&[bad], ""), Err("lnemail_invalid_input"));
    }
    assert_ne!(url(&["a", "b"]), url(&["a", "b", "c"]));
}

#[test]
fn an_address_has_a_greatest_length() {
    let origin = "https://lnemail.net/api/v1/".len();
    assert_eq!(url(&[&"a".repeat(MAX_INPUT - origin)]).unwrap().len(), MAX_INPUT);
    assert_eq!(url(&[&"a".repeat(MAX_INPUT - origin + 1)]), Err("lnemail_invalid_input"));
    assert!(url(&["a"; 8]).is_ok());
}

#[test]
fn a_request_is_made_of_its_parts() {
    let read = get(&["emails"], "").unwrap();
    assert_eq!(read.method, Method::Get);
    assert_eq!(read.url, "https://lnemail.net/api/v1/emails");
    assert_eq!(read.body, None);
    assert!(read.authorization.is_none());
    assert_eq!(read.framing(), Framing::Bare);
    let posted = post(&["email"], "{}".to_string(), "t").unwrap();
    assert_eq!(posted.method, Method::Post);
    assert_eq!(posted.body, Some("{}".to_string()));
    assert_eq!(posted.authorization.as_ref().unwrap().value, b"Bearer t");
    assert_eq!(posted.framing(), Framing::Json);
    let deleted = delete(&["emails", "x"], None, "t").unwrap();
    assert_eq!(deleted.method, Method::Delete);
    assert_eq!(deleted.framing(), Framing::Empty);
    let several = delete(&["emails"], Some("[]".to_string()), "t").unwrap();
    assert_eq!(several.framing(), Framing::Json);
}

#[test]
fn a_body_has_a_greatest_length() {
    assert!(post(&["email"], "x".repeat(MAX_POST), "").is_ok());
    assert_eq!(post(&["email"], "x".repeat(MAX_POST + 1), ""), Err("lnemail_invalid_input"));
    assert!(delete(&["emails"], Some("x".repeat(MAX_INPUT)), "").is_ok());
    assert_eq!(
        delete(&["emails"], Some("x".repeat(MAX_INPUT + 1)), ""),
        Err("lnemail_invalid_input")
    );
}

#[test]
fn a_request_with_a_bad_path_or_token_is_refused() {
    assert_eq!(get(&[".."], ""), Err("lnemail_invalid_input"));
    assert_eq!(get(&["emails"], "a\nb"), Err("lnemail_invalid_input"));
    assert_eq!(post(&[""], "{}".to_string(), ""), Err("lnemail_invalid_input"));
    assert_eq!(delete(&["emails"], None, "\u{7f}"), Err("lnemail_invalid_input"));
}

#[test]
fn oversized_response_is_refused_before_body_collection() {
    assert_eq!(
        Reply::head(200, Some(MAX_RESPONSE as u64 + 1)),
        Err("lnemail_response_too_large")
    );
    assert!(Reply::head(200, Some(MAX_RESPONSE as u64)).is_ok());
    assert!(Reply::head(200, None).is_ok());
}

#[test]
fn an_unauthorized_status_is_reported_before_the_body_is_read() {
    assert_eq!(Reply::head(401, Some(0)), Err("lnemail_unauthorized"));
    assert_eq!(
        Reply::head(401, Some(MAX_RESPONSE as u64 + 1)),
        Err("lnemail_unauthorized")
    );
}

#[test]
fn each_status_has_its_word() {
    for (status, word) in [
        (403, "lnemail_forbidden"),
        (404, "lnemail_not_found"),
        (409, "lnemail_conflict"),
        (411, "lnemail_length_required"),
        (422, "lnemail_invalid_input"),
        (429, "lnemail_rate_limited"),
        (500, "lnemail_http_failed"),
        (301, "lnemail_http_failed"),
        (199, "lnemail_http_failed"),
        (300, "lnemail_http_failed"),
    ] {
        assert_eq!(Reply::head(status, None), Err(word));
    }
    assert!(Reply::head(299, None).is_ok());
    assert_eq!(http_error(true), "lnemail_timeout");
    assert_eq!(http_error(false), "lnemail_http_failed");
}

#[test]
fn a_body_is_gathered_until_it_is_too_large() {
    let reply = Reply::head(200, None).unwrap();
    let reply = reply.chunk(b"{\"a\":").unwrap().chunk(b"1}").unwrap();
    assert_eq!(reply.end(), Ending::Parse(b"{\"a\":1}".to_vec()));
    let full = Reply::head(200, None).unwrap().chunk(&vec![0; MAX_RESPONSE]).unwrap();
    let full = full.chunk(b"").unwrap();
    assert_eq!(full.chunk(b"x"), Err("lnemail_response_too_large"));
    let empty = Reply::head(204, None).unwrap();
    assert_eq!(empty.end(), Ending::Answer(Value::Object(vec![])));
}

#[test]
fn only_an_object_is_an_answer() {
    assert_eq!(answer(None), Err("lnemail_invalid_response"));
    assert_eq!(answer(Some(Value::Array(vec![]))), Err("lnemail_invalid_response"));
    let object = || Value::Object(vec![Field { name: "a".to_string(), value: Value::Null }]);
    assert_eq!(answer(Some(object())), Ok(object()));
}
