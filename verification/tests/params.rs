use lnemail::json::{Field, Number, Value};
use lnemail::params::{
    allowed, attachments, boolean, email_address, explicit_token, optional, segment, sent_hash,
    text, MAX_ATTACHMENTS, MAX_ATTACHMENT_TOTAL,
};

fn s(text: &str) -> Value {
    Value::String(text.to_string())
}

fn n(number: u64) -> Value {
    Value::Number(Number::Unsigned(number))
}

fn obj(fields: Vec<(&str, Value)>) -> Value {
    Value::Object(
        fields
            .into_iter()
            .map(|(name, value)| Field { name: name.to_string(), value })
            .collect(),
    )
}

#[test]
fn allowed_refuses_any_key_outside_the_method_s_own_list() {
    assert!(allowed(&obj(vec![("accountId", s("x"))]), &["accountId"]).is_ok());
    assert_eq!(
        allowed(&obj(vec![("accountId", s("x")), ("extra", s("y"))]), &["accountId"]),
        Err("invalid_params")
    );
    assert_eq!(allowed(&s("not an object"), &["accountId"]), Err("invalid_params"));
}

#[test]
fn a_path_segment_is_never_a_slash_a_dot_or_control_bytes() {
    assert_eq!(segment(&obj(vec![("id", s("abc-123_DEF"))]), "id").unwrap(), "abc-123_DEF");
    for bad in ["", "a/b", "..", ".", "a b", "a\nb", "a\0b", &"a".repeat(129)] {
        assert_eq!(segment(&obj(vec![("id", s(bad))]), "id"), Err("invalid_params"));
    }
    assert_eq!(segment(&obj(vec![]), "id"), Err("invalid_params"));
    assert_eq!(segment(&obj(vec![("id", n(5))]), "id"), Err("invalid_params"));
}

#[test]
fn a_segment_of_the_greatest_length_is_taken() {
    let longest = "a".repeat(128);
    assert_eq!(segment(&obj(vec![("id", s(&longest))]), "id").unwrap(), longest);
    assert_eq!(segment(&obj(vec![("id", s("é"))]), "id"), Err("invalid_params"));
}

#[test]
fn text_enforces_the_caller_s_bound_and_refuses_nul() {
    assert_eq!(text(&obj(vec![("s", s("hello"))]), "s", true, 10).unwrap(), "hello");
    assert_eq!(text(&obj(vec![]), "s", false, 10).unwrap(), "");
    assert_eq!(text(&obj(vec![]), "s", true, 10), Err("invalid_params"));
    assert_eq!(text(&obj(vec![("s", s("toolong"))]), "s", true, 3), Err("invalid_params"));
    assert_eq!(text(&obj(vec![("s", s("a\0b"))]), "s", true, 10), Err("invalid_params"));
    // A body may carry a newline: only NUL is refused here.
    assert_eq!(
        text(&obj(vec![("s", s("line one\nline two"))]), "s", true, 100).unwrap(),
        "line one\nline two"
    );
}

#[test]
fn a_null_text_counts_as_a_missing_one() {
    assert_eq!(text(&obj(vec![("s", Value::Null)]), "s", false, 10).unwrap(), "");
    assert_eq!(text(&obj(vec![("s", Value::Null)]), "s", true, 10), Err("invalid_params"));
    assert_eq!(text(&obj(vec![("s", n(1))]), "s", false, 10), Err("invalid_params"));
    // The bound is one of bytes.
    assert_eq!(text(&obj(vec![("s", s("éé"))]), "s", true, 3), Err("invalid_params"));
    assert_eq!(text(&obj(vec![("s", s("éé"))]), "s", true, 4).unwrap(), "éé");
}

#[test]
fn boolean_defaults_to_false_and_refuses_anything_but_a_bool() {
    assert!(!boolean(&obj(vec![]), "b").unwrap());
    assert!(boolean(&obj(vec![("b", Value::Bool(true))]), "b").unwrap());
    assert_eq!(boolean(&obj(vec![("b", s("true"))]), "b"), Err("invalid_params"));
}

#[test]
fn email_address_requires_a_local_part_a_domain_and_no_whitespace() {
    assert!(email_address("user@example.org").is_ok());
    for bad in ["", "no-at-sign", "@example.org", "user@", "user@nodot", "us er@example.org"] {
        assert_eq!(email_address(bad), Err("invalid_params"));
    }
}

#[test]
fn attachments_are_capped_in_count_and_combined_size() {
    assert_eq!(attachments(&obj(vec![])).unwrap(), Vec::<Value>::new());
    let one = obj(vec![(
        "attachments",
        Value::Array(vec![obj(vec![
            ("filename", s("a.txt")),
            ("contentType", s("text/plain")),
            ("content", s("aGVsbG8=")),
        ])]),
    )]);
    assert_eq!(
        attachments(&one).unwrap(),
        vec![obj(vec![
            ("filename", s("a.txt")),
            ("content_type", s("text/plain")),
            ("content", s("aGVsbG8=")),
        ])]
    );
    let too_many: Vec<Value> = (0..MAX_ATTACHMENTS + 1)
        .map(|_| {
            obj(vec![
                ("filename", s("a")),
                ("contentType", s("text/plain")),
                ("content", s("x")),
            ])
        })
        .collect();
    assert_eq!(
        attachments(&obj(vec![("attachments", Value::Array(too_many))])),
        Err("invalid_params")
    );
    let oversized = obj(vec![(
        "attachments",
        Value::Array(vec![obj(vec![
            ("filename", s("a")),
            ("contentType", s("text/plain")),
            ("content", s(&"x".repeat(MAX_ATTACHMENT_TOTAL + 1))),
        ])]),
    )]);
    assert_eq!(attachments(&oversized), Err("invalid_params"));
}

#[test]
fn optional_turns_an_absent_value_into_json_null_never_an_empty_string() {
    assert_eq!(optional(""), Value::Null);
    assert_eq!(optional("x"), s("x"));
}

#[test]
fn a_token_is_taken_where_it_is_printable_and_short() {
    assert_eq!(explicit_token(&obj(vec![])), Ok(None));
    assert_eq!(explicit_token(&obj(vec![("token", Value::Null)])), Ok(None));
    assert_eq!(explicit_token(&obj(vec![("token", s("abc"))])), Ok(Some("abc")));
    let longest = "t".repeat(16384);
    assert_eq!(explicit_token(&obj(vec![("token", s(&longest))])), Ok(Some(longest.as_str())));
    for bad in ["", "a\nb", "a\u{7f}", &"t".repeat(16385)] {
        assert_eq!(explicit_token(&obj(vec![("token", s(bad))])), Err("invalid_params"));
    }
    assert_eq!(explicit_token(&obj(vec![("token", n(1))])), Err("invalid_params"));
}

#[test]
fn a_row_of_the_send_log_is_told_by_its_prefix() {
    assert_eq!(sent_hash("send-abc"), Some("abc"));
    assert_eq!(sent_hash("send-"), Some(""));
    assert_eq!(sent_hash("sent-abc"), None);
    assert_eq!(sent_hash("abc"), None);
}
