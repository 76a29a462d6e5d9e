use base64::engine::general_purpose::STANDARD;
use base64::Engine;
use lnemail::json::Value;
use lnemail::outgoing::{
    addresses, decode_outgoing, header_value, send_fields, single_recipient, walk_outgoing,
    Content, Gathered, MailPart, Outgoing, MAX_DEPTH, MAX_OUTGOING_ATTACHMENTS, MAX_OUTGOING_ATTACHMENT_TOTAL,
};

fn s(text: &str) -> Value {
    Value::String(text.to_string())
}

fn at<'a>(value: &'a Value, keys: &[&str]) -> &'a Value {
    keys.iter().fold(value, |value, key| value.get(key).unwrap())
}

#[test]
fn a_plain_message_decodes_to_lnemail_s_own_send_fields() {
    let raw = b"To: a@example.org\r\nSubject: Hi\r\nIn-Reply-To: <m1@example.org>\r\n\
        References: <m0@example.org> <m1@example.org>\r\n\
        Content-Type: text/plain; charset=utf-8\r\n\r\nhello there";
    let fields = decode_outgoing(raw).unwrap();
    assert_eq!(*at(&fields, &["recipient"]), s("a@example.org"));
    assert_eq!(*at(&fields, &["subject"]), s("Hi"));
    assert_eq!(*at(&fields, &["body"]), s("hello there"));
    assert_eq!(*at(&fields, &["in_reply_to"]), s("<m1@example.org>"));
    assert_eq!(*at(&fields, &["references"]), s("<m0@example.org> <m1@example.org>"));
    assert_eq!(*at(&fields, &["attachments"]), Value::Array(vec![]));
}

#[test]
fn no_recipient_or_more_than_one_across_to_cc_and_bcc_is_refused() {
    let none = b"Subject: Hi\r\n\r\nbody";
    assert_eq!(decode_outgoing(none), Err("lnemail_recipient_required"));
    let two = b"To: a@example.org\r\nCc: b@example.org\r\n\r\nbody";
    assert_eq!(decode_outgoing(two), Err("lnemail_single_recipient_only"));
}

#[test]
fn a_multipart_message_keeps_the_plain_part_and_collects_attachments_by_disposition() {
    let raw = b"To: a@example.org\r\nSubject: Hi\r\n\
        Content-Type: multipart/mixed; boundary=x\r\n\r\n\
        --x\r\nContent-Type: multipart/alternative; boundary=y\r\n\r\n\
        --y\r\nContent-Type: text/plain\r\n\r\nplain body\r\n\
        --y\r\nContent-Type: text/html\r\n\r\n<p>html body</p>\r\n--y--\r\n\
        --x\r\nContent-Type: application/octet-stream\r\n\
        Content-Disposition: attachment; filename=blob.bin\r\n\
        Content-Transfer-Encoding: base64\r\n\r\nAAEC\r\n--x--\r\n";
    let fields = decode_outgoing(raw).unwrap();
    assert_eq!(
        *at(&fields, &["body"]),
        s("plain body"),
        "the HTML alternative is dropped, LNemail sends plain text only"
    );
    let attachments = at(&fields, &["attachments"]).as_array().unwrap();
    assert_eq!(attachments.len(), 1);
    assert_eq!(*at(&attachments[0], &["filename"]), s("blob.bin"));
    assert_eq!(*at(&attachments[0], &["content_type"]), s("application/octet-stream"));
    assert_eq!(
        STANDARD.decode(at(&attachments[0], &["content"]).as_str().unwrap()).unwrap(),
        vec![0, 1, 2]
    );
}

#[test]
fn a_missing_in_reply_to_and_references_are_null_not_empty_strings() {
    let raw = b"To: a@example.org\r\nSubject: Hi\r\n\r\nbody";
    let fields = decode_outgoing(raw).unwrap();
    assert_eq!(*at(&fields, &["in_reply_to"]), Value::Null);
    assert_eq!(*at(&fields, &["references"]), Value::Null);
}

#[test]
fn attachments_over_the_combined_size_limit_are_refused() {
    // Base64 in the message itself, so it decodes to more than the cap —
    // encoded length runs a third larger than the decoded bytes it holds.
    let big = "A".repeat((MAX_OUTGOING_ATTACHMENT_TOTAL + 1024) * 4 / 3 + 4);
    let raw = format!(
        "To: a@example.org\r\nSubject: Hi\r\nContent-Type: multipart/mixed; boundary=x\r\n\r\n\
        --x\r\nContent-Type: text/plain\r\n\r\nbody\r\n\
        --x\r\nContent-Type: application/octet-stream\r\n\
        Content-Disposition: attachment; filename=big.bin\r\n\
        Content-Transfer-Encoding: base64\r\n\r\n{big}\r\n--x--\r\n"
    );
    assert_eq!(decode_outgoing(raw.as_bytes()), Err("invalid_params"));
}

#[test]
fn malformed_bytes_are_refused_rather_than_panicking() {
    assert!(decode_outgoing(b"\xff\xfe not a message").is_err());
}

fn leaf(mime_type: &str, attached: bool, raw: Option<&[u8]>, text: Option<&str>) -> MailPart {
    MailPart {
        content: Content {
            mime_type: mime_type.to_string(),
            attached,
            disposition_params: vec![],
            type_params: vec![],
            raw: raw.map(|bytes| bytes.to_vec()),
            text: text.map(|text| text.to_string()),
        },
        subparts: vec![],
    }
}

fn wrapper(subparts: Vec<MailPart>) -> MailPart {
    MailPart { subparts, ..leaf("multipart/mixed", false, None, None) }
}

fn nothing() -> Gathered {
    Gathered { plain: None, attachments: vec![] }
}

#[test]
fn the_first_plain_text_is_the_body_and_html_is_left_out() {
    let mail = wrapper(vec![
        leaf("text/html", false, None, Some("<p>no</p>")),
        leaf("text/plain", false, None, Some("first")),
        leaf("text/plain", false, None, Some("second")),
        leaf("image/png", false, Some(b"png"), None),
    ]);
    let all = walk_outgoing(&mail, 0, nothing()).unwrap();
    assert_eq!(all.plain, Some("first".to_string()));
    assert_eq!(all.attachments.len(), 1);
    assert_eq!(all.attachments[0].filename, "attachment");
    assert_eq!(all.attachments[0].content_type, "image/png");
    assert_eq!(all.attachments[0].content, "cG5n");
    assert_eq!(all.attachments[0].size, 3);
}

#[test]
fn an_attachment_is_named_by_its_disposition_before_its_type() {
    let mut part = leaf("application/pdf", true, Some(b"x"), None);
    part.content.type_params = vec![("name".to_string(), "by-type".to_string())];
    let all = walk_outgoing(&part, 0, nothing()).unwrap();
    assert_eq!(all.attachments[0].filename, "by-type");
    part.content.disposition_params = vec![("filename".to_string(), "by-disposition".to_string())];
    let all = walk_outgoing(&part, 0, nothing()).unwrap();
    assert_eq!(all.attachments[0].filename, "by-disposition");
}

#[test]
fn parts_below_the_depth_that_is_followed_are_left_out() {
    let text = leaf("text/plain", false, None, Some("deep"));
    let at_limit = walk_outgoing(&text, MAX_DEPTH, nothing()).unwrap();
    assert_eq!(at_limit.plain, Some("deep".to_string()));
    let below = walk_outgoing(&text, MAX_DEPTH + 1, nothing()).unwrap();
    assert_eq!(below.plain, None);
}

#[test]
fn a_part_that_cannot_be_decoded_is_refused() {
    let text = leaf("text/plain", false, Some(b"x"), None);
    assert_eq!(walk_outgoing(&text, 0, nothing()), Err("invalid_params"));
    let attached = leaf("text/plain", true, None, Some("x"));
    assert_eq!(walk_outgoing(&attached, 0, nothing()), Err("invalid_params"));
}

#[test]
fn no_more_attachments_are_taken_than_allowed() {
    let many = |count: usize| {
        wrapper((0..count).map(|_| leaf("image/png", true, Some(b"x"), None)).collect())
    };
    let all = walk_outgoing(&many(MAX_OUTGOING_ATTACHMENTS), 0, nothing()).unwrap();
    assert_eq!(all.attachments.len(), MAX_OUTGOING_ATTACHMENTS);
    assert_eq!(
        walk_outgoing(&many(MAX_OUTGOING_ATTACHMENTS + 1), 0, nothing()),
        Err("invalid_params")
    );
}

#[test]
fn the_fields_of_a_send_are_those_of_the_message() {
    let message = Outgoing {
        named: vec![Some(vec![]), Some(vec!["b@example.org".to_string()])],
        subject: "Hi".to_string(),
        in_reply_to: "".to_string(),
        references: "<r>".to_string(),
        mail: leaf("text/html", false, None, Some("<p>no</p>")),
    };
    let fields = send_fields(&message).unwrap();
    assert_eq!(*at(&fields, &["recipient"]), s("b@example.org"));
    assert_eq!(*at(&fields, &["subject"]), s("Hi"));
    assert_eq!(*at(&fields, &["body"]), s(""));
    assert_eq!(*at(&fields, &["in_reply_to"]), Value::Null);
    assert_eq!(*at(&fields, &["references"]), s("<r>"));
}

#[test]
fn addresses_are_read_out_of_names_and_groups() {
    assert_eq!(
        addresses("Ann <a@example.org>, team: b@example.org, c@example.org;").unwrap(),
        vec!["a@example.org", "b@example.org", "c@example.org"]
    );
    assert_eq!(addresses(""), Some(vec![]));
    assert_eq!(addresses("b@example.org, nobody"), None);
}

#[test]
fn a_second_header_of_a_name_counts_too() {
    for raw in [
        "To: a@example.org\r\nTo: b@example.org\r\n\r\nbody",
        "To: a@example.org\r\nCc: \r\ncc: b@example.org\r\n\r\nbody",
        "Bcc: a@example.org\r\nBcc: b@example.org\r\n\r\nbody",
    ] {
        assert_eq!(decode_outgoing(raw.as_bytes()), Err("lnemail_single_recipient_only"));
    }
    let one = b"To: \r\nTo: a@example.org\r\n\r\nbody";
    assert_eq!(*at(&decode_outgoing(one).unwrap(), &["recipient"]), s("a@example.org"));
}

#[test]
fn a_header_that_cannot_be_read_keeps_a_message_from_being_sent() {
    let other = b"To: a@example.org\r\nCc: b@example.org, nobody\r\n\r\nbody";
    assert_eq!(decode_outgoing(other), Err("invalid_params"));
    let alone = b"To: nobody\r\n\r\nbody";
    assert_eq!(decode_outgoing(alone), Err("lnemail_recipient_required"));
    let one = || Some(vec!["a@example.org".to_string()]);
    assert_eq!(single_recipient(&vec![one()]), Ok("a@example.org".to_string()));
    assert_eq!(single_recipient(&vec![one(), None]), Err("invalid_params"));
    assert_eq!(single_recipient(&vec![None, one(), one()]), Err("lnemail_single_recipient_only"));
    assert_eq!(single_recipient(&vec![None]), Err("lnemail_recipient_required"));
}

#[test]
fn attachments_are_capped_by_what_they_decode_to() {
    let message = |sizes: &[usize]| Outgoing {
        named: vec![Some(vec!["a@example.org".to_string()])],
        subject: "".to_string(),
        in_reply_to: "".to_string(),
        references: "".to_string(),
        mail: wrapper(
            sizes.iter().map(|size| leaf("image/png", true, Some(&vec![7; *size]), None)).collect(),
        ),
    };
    let fields = send_fields(&message(&[MAX_OUTGOING_ATTACHMENT_TOTAL])).unwrap();
    let attachments = at(&fields, &["attachments"]).as_array().unwrap();
    let content = STANDARD.decode(at(&attachments[0], &["content"]).as_str().unwrap()).unwrap();
    assert_eq!(content.len(), MAX_OUTGOING_ATTACHMENT_TOTAL);
    assert!(send_fields(&message(&[MAX_OUTGOING_ATTACHMENT_TOTAL - 1, 1])).is_ok());
    for over in [vec![MAX_OUTGOING_ATTACHMENT_TOTAL + 1], vec![MAX_OUTGOING_ATTACHMENT_TOTAL, 1]] {
        assert_eq!(send_fields(&message(&over)), Err("invalid_params"));
    }
}

#[test]
fn a_header_is_read_by_its_name_whatever_the_case() {
    let raw = b"to: a@example.org\r\nSubject: =?utf-8?Q?H=C3=A9?=\r\n\r\nbody";
    assert_eq!(header_value(raw, "To"), "a@example.org");
    assert_eq!(header_value(raw, "Subject"), "Hé");
    assert_eq!(header_value(raw, "Cc"), "");
}
