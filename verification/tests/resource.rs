use base64::engine::general_purpose::URL_SAFE_NO_PAD;
use base64::Engine;
use lnemail::dates::{date_text, internal_date};
use lnemail::json::{Field, Number, Value};
use lnemail::resource::{
    angle_bracketed, attachment_data, attachment_part, capitalized, full_message, list_row,
    sent_message, sent_message_from_cache, sent_row,
};

fn s(text: &str) -> Value {
    Value::String(text.to_string())
}

fn n(number: u64) -> Value {
    Value::Number(Number::Unsigned(number))
}

fn obj(fields: Vec<(&str, Value)>) -> Value {
    Value::Object(
        fields
            .into_iter()
            .map(|(name, value)| Field { name: name.to_string(), value })
            .collect(),
    )
}

fn list(items: Vec<Value>) -> Value {
    Value::Array(items)
}

fn at<'a>(value: &'a Value, keys: &[&str]) -> &'a Value {
    keys.iter().fold(value, |value, key| value.get(key).unwrap())
}

fn headers(part: &Value) -> &Vec<Value> {
    at(part, &["headers"]).as_array().unwrap()
}

fn pair(name: &str, value: &str) -> Value {
    obj(vec![("name", s(name)), ("value", s(value))])
}

fn data(part: &Value) -> Vec<u8> {
    URL_SAFE_NO_PAD.decode(at(part, &["body", "data"]).as_str().unwrap()).unwrap()
}

#[test]
fn a_list_row_carries_headers_and_an_unread_label_but_no_body() {
    let row = list_row(&obj(vec![
        ("id", s("abc")),
        ("subject", s("Hi")),
        ("sender", s("a@example.org")),
        ("recipient", s("me@lnemail.net")),
        ("date", s("2026-09-13T12:00:00Z")),
        ("read", Value::Bool(false)),
    ]));
    assert_eq!(*at(&row, &["id"]), s("abc"));
    assert_eq!(*at(&row, &["threadId"]), s("abc"));
    assert_eq!(*at(&row, &["labelIds"]), list(vec![s("INBOX"), s("UNREAD")]));
    assert_eq!(*at(&row, &["payload", "mimeType"]), s("text/plain"));
    assert_eq!(*at(&row, &["payload", "body", "size"]), n(0));
    assert!(at(&row, &["payload", "body"]).get("data").is_none());
    let headers = headers(at(&row, &["payload"]));
    assert!(headers.contains(&pair("From", "a@example.org")));
    assert!(headers.contains(&pair("Subject", "Hi")));
    assert!(!headers.iter().any(|h| *at(h, &["name"]) == s("Message-ID")));
    assert_eq!(*at(&row, &["internalDate"]), s("1789300800000"));
}

#[test]
fn a_read_message_carries_no_unread_label() {
    let row = list_row(&obj(vec![("id", s("x")), ("read", Value::Bool(true))]));
    assert_eq!(*at(&row, &["labelIds"]), list(vec![s("INBOX")]));
}

#[test]
fn a_plain_only_message_is_one_leaf_part_base64url_encoded() {
    let message = full_message(&obj(vec![
        ("id", s("m1")),
        ("sender", s("a@x.org")),
        ("subject", s("Hi")),
        ("date", s("2026-09-13T12:00:00Z")),
        ("body_plain", s("hello\nworld")),
        ("read", Value::Bool(true)),
    ]));
    let payload = at(&message, &["payload"]);
    assert_eq!(*at(payload, &["mimeType"]), s("text/plain"));
    assert_eq!(data(payload), b"hello\nworld");
    assert!(at(payload, &["parts"]).as_array().unwrap().is_empty());
    assert!(headers(payload).iter().any(|h| *h == pair("Content-Type", "text/plain; charset=utf-8")));
    assert_eq!(*at(&message, &["sizeEstimate"]), n(11));
}

#[test]
fn plain_and_html_become_a_multipart_alternative() {
    let message = full_message(&obj(vec![
        ("id", s("m1")),
        ("body_plain", s("hi")),
        ("body_html", s("<p>hi</p>")),
        ("read", Value::Bool(true)),
    ]));
    assert_eq!(*at(&message, &["payload", "mimeType"]), s("multipart/alternative"));
    let parts = at(&message, &["payload", "parts"]).as_array().unwrap();
    assert_eq!(parts.len(), 2);
    assert_eq!(*at(&parts[0], &["mimeType"]), s("text/plain"));
    assert_eq!(*at(&parts[1], &["mimeType"]), s("text/html"));
    assert_eq!(data(&parts[1]), b"<p>hi</p>");
}

#[test]
fn falls_back_to_body_when_body_plain_is_absent() {
    let message = full_message(&obj(vec![
        ("id", s("m1")),
        ("body", s("fallback")),
        ("read", Value::Bool(true)),
    ]));
    assert_eq!(*at(&message, &["payload", "mimeType"]), s("text/plain"));
    assert_eq!(data(at(&message, &["payload"])), b"fallback");
}

#[test]
fn attachments_wrap_everything_in_multipart_mixed_and_name_themselves_by_index() {
    let message = full_message(&obj(vec![
        ("id", s("m1")),
        ("body_plain", s("hi")),
        ("read", Value::Bool(false)),
        (
            "attachments",
            list(vec![
                obj(vec![
                    ("filename", s("a.txt")),
                    ("content_type", s("text/plain")),
                    ("content", s("aGVsbG8=")),
                    ("encoding", s("base64")),
                ]),
                obj(vec![
                    ("filename", s("b.txt")),
                    ("content_type", s("text/plain")),
                    ("content", s("plain text")),
                    ("encoding", s("text")),
                ]),
            ]),
        ),
    ]));
    assert_eq!(*at(&message, &["payload", "mimeType"]), s("multipart/mixed"));
    let parts = at(&message, &["payload", "parts"]).as_array().unwrap();
    assert_eq!(parts.len(), 3);
    assert_eq!(*at(&parts[0], &["mimeType"]), s("text/plain"));
    assert_eq!(*at(&parts[1], &["filename"]), s("a.txt"));
    assert_eq!(*at(&parts[1], &["body", "attachmentId"]), s("0"));
    assert_eq!(*at(&parts[1], &["body", "size"]), n(5), "aGVsbG8= decodes to 5 bytes");
    assert_eq!(*at(&parts[2], &["body", "attachmentId"]), s("1"));
    assert_eq!(*at(&parts[2], &["body", "size"]), n("plain text".len() as u64));
    assert_eq!(*at(&headers(&parts[1])[0], &["value"]), s("attachment; filename=\"a.txt\""));
    assert_eq!(*at(&message, &["sizeEstimate"]), n(17));
}

#[test]
fn a_quote_or_backslash_in_a_filename_cannot_end_the_disposition_value_early() {
    let part = attachment_part(
        0,
        &obj(vec![("filename", s("a\"b\\c")), ("content", s("")), ("encoding", s("text"))]),
    );
    assert_eq!(*at(&headers(&part)[0], &["value"]), s("attachment; filename=\"a\\\"b\\\\c\""));
}

#[test]
fn attachment_data_decodes_by_index_and_a_bad_index_is_refused() {
    let entry = obj(vec![(
        "attachments",
        list(vec![obj(vec![
            ("filename", s("a.bin")),
            ("content", s("AAEC")),
            ("encoding", s("base64")),
        ])]),
    )]);
    let value = attachment_data(&entry, 0).unwrap();
    assert_eq!(*at(&value, &["size"]), n(3));
    assert_eq!(
        URL_SAFE_NO_PAD.decode(at(&value, &["data"]).as_str().unwrap()).unwrap(),
        vec![0, 1, 2]
    );
    assert_eq!(attachment_data(&entry, 1), Err("lnemail_not_found"));
    assert_eq!(attachment_data(&obj(vec![]), 0), Err("lnemail_not_found"));
}

#[test]
fn an_attachment_that_is_no_base64_is_empty() {
    let entry = obj(vec![(
        "attachments",
        list(vec![obj(vec![("content", s("!!!")), ("encoding", s("base64"))])]),
    )]);
    assert_eq!(attachment_data(&entry, 0), Ok(obj(vec![("size", n(0)), ("data", s(""))])));
}

#[test]
fn an_iso_date_and_a_raw_mail_date_header_both_resolve() {
    assert_ne!(internal_date("2026-09-13T12:00:00Z"), "");
    assert_ne!(internal_date("Sun, 13 Sep 2026 12:00:00 +0000"), "");
    assert_eq!(internal_date(""), "");
    assert_eq!(internal_date("not a date"), "");
}

#[test]
fn both_forms_of_a_date_give_the_same_milliseconds() {
    assert_eq!(internal_date("2026-09-13T12:00:00Z"), "1789300800000");
    assert_eq!(internal_date("Sun, 13 Sep 2026 12:00:00 +0000"), "1789300800000");
    assert_eq!(internal_date("2026-09-13T14:00:00+02:00"), "1789300800000");
    assert_eq!(date_text(Some(7), Some(9)), "7");
    assert_eq!(date_text(None, Some(9)), "9000");
    assert_eq!(date_text(None, None), "");
}

fn send(fields: Vec<(&'static str, &'static str)>) -> Value {
    obj(fields.into_iter().map(|(name, value)| (name, s(value))).collect())
}

#[test]
fn a_sent_row_names_itself_by_payment_hash_and_carries_no_body() {
    let row = sent_row(&send(vec![
        ("payment_hash", "abc123"),
        ("recipient", "a@example.org"),
        ("subject", "Hi"),
        ("payment_status", "paid"),
        ("delivery_status", "sent"),
        ("created_at", "2026-09-13T12:00:00Z"),
        ("sent_at", "2026-09-13T12:00:05Z"),
    ]));
    assert_eq!(*at(&row, &["id"]), s("send-abc123"));
    assert_eq!(*at(&row, &["threadId"]), s("send-abc123"));
    assert_eq!(*at(&row, &["labelIds"]), list(vec![s("SENT")]));
    assert_ne!(*at(&row, &["internalDate"]), s(""));
    assert_eq!(*at(&row, &["internalDate"]), s("1789300805000"));
    assert_eq!(*at(&row, &["snippet"]), s("Payment paid, delivery sent"));
    assert_eq!(*at(&row, &["payload", "body", "size"]), n(0));
    assert!(at(&row, &["payload", "body"]).get("data").is_none());
    let headers = headers(at(&row, &["payload"]));
    assert!(headers.contains(&pair("To", "a@example.org")));
    assert!(headers.contains(&pair("Subject", "Hi")));
}

#[test]
fn a_sent_row_falls_back_to_created_at_when_never_confirmed_sent() {
    let row = sent_row(&send(vec![
        ("payment_hash", "abc123"),
        ("recipient", "a@example.org"),
        ("subject", "Hi"),
        ("payment_status", "pending"),
        ("delivery_status", "pending"),
        ("created_at", "2026-09-13T12:00:00Z"),
    ]));
    assert_ne!(*at(&row, &["internalDate"]), s(""));
    assert_eq!(*at(&row, &["internalDate"]), s("1789300800000"));
}

#[test]
fn opening_a_sent_row_explains_there_is_no_stored_body() {
    let message = sent_message(&send(vec![
        ("payment_hash", "abc123"),
        ("recipient", "a@example.org"),
        ("subject", "Hi"),
        ("payment_status", "paid"),
        ("delivery_status", "failed"),
        ("created_at", "2026-09-13T12:00:00Z"),
    ]));
    assert_eq!(*at(&message, &["id"]), s("send-abc123"));
    let text = String::from_utf8(data(at(&message, &["payload"]))).unwrap();
    assert!(text.contains("does not keep a copy"));
    assert!(text.contains("Payment: Paid"));
    assert!(text.contains("Delivery: Failed"));
}

#[test]
fn a_remembered_send_shows_its_body_and_says_where_it_is_kept() {
    let entry = send(vec![("payment_hash", "abc123"), ("subject", "Hi")]);
    let cached = send(vec![("body", "the body"), ("subject", "other")]);
    let message = sent_message_from_cache(&entry, &cached);
    assert_eq!(*at(&message, &["id"]), s("send-abc123"));
    let text = String::from_utf8(data(at(&message, &["payload"]))).unwrap();
    assert!(text.starts_with("Kept on this device only"));
    assert!(text.ends_with("\n\nthe body"));
    assert!(headers(at(&message, &["payload"])).contains(&pair("Subject", "Hi")));
}

#[test]
fn a_word_is_capitalized_by_its_first_character() {
    assert_eq!(capitalized(""), "");
    assert_eq!(capitalized("paid"), "Paid");
    assert_eq!(capitalized("ßa"), "SSa");
}

#[test]
fn a_message_id_gets_its_brackets_once() {
    assert_eq!(angle_bracketed("a@b"), "<a@b>");
    assert_eq!(angle_bracketed("<a@b>"), "<a@b>");
    assert_eq!(angle_bracketed(""), "");
}

#[test]
fn the_envelope_stands_at_the_top_alone() {
    let message = full_message(&obj(vec![
        ("sender", s("a@example.org")),
        ("message_id", s("m@example.org")),
        ("references", s("<r@example.org>")),
        ("body_plain", s("hi")),
        ("body_html", s("<p>hi</p>")),
        ("attachments", list(vec![obj(vec![("content", s("x"))])])),
    ]));
    let payload = at(&message, &["payload"]);
    assert_eq!(
        *headers(payload),
        vec![
            pair("From", "a@example.org"),
            pair("Message-ID", "<m@example.org>"),
            pair("References", "<r@example.org>"),
            pair("Content-Type", "multipart/mixed; charset=utf-8"),
        ]
    );
    let parts = at(payload, &["parts"]).as_array().unwrap();
    assert!(headers(&parts[0]).is_empty());
    let texts = at(&parts[0], &["parts"]).as_array().unwrap();
    assert_eq!(*headers(&texts[0]), vec![pair("Content-Type", "text/plain; charset=utf-8")]);
    assert_eq!(*headers(&texts[1]), vec![pair("Content-Type", "text/html; charset=utf-8")]);
    assert_eq!(
        *headers(&parts[1]),
        vec![pair("Content-Disposition", "attachment; filename=\"\"")]
    );
    assert_eq!(*at(&parts[1], &["mimeType"]), s("application/octet-stream"));
}

#[test]
fn opening_a_send_keeps_what_a_listing_sorts_by() {
    let entry = send(vec![
        ("payment_hash", "abc123"),
        ("recipient", "a@example.org"),
        ("created_at", "2026-09-13T12:00:00Z"),
    ]);
    let row = sent_row(&entry);
    let cached = send(vec![("body", "the body"), ("id", "other"), ("date", "other")]);
    for opened in [sent_message(&entry), sent_message_from_cache(&entry, &cached)] {
        for key in ["id", "threadId", "labelIds", "internalDate", "sizeEstimate"] {
            assert_eq!(opened.get(key), row.get(key));
        }
        assert_eq!(at(&opened, &["payload", "headers"]), at(&row, &["payload", "headers"]));
        assert_eq!(*at(&opened, &["snippet"]), s(""));
    }
}
