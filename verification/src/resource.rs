//! Composes the service's own JSON into the message resource that every
//! provider hands over: an envelope, labels, a date, and a tree of parts. The
//! service gives parsed fields, so the resource is built field for field.
use vstd::prelude::*;
use vstd::string::*;

use crate::codec::{base64_read, base64url, base64url_read, decode_standard, encode_url, seq_of};
use crate::dates::{internal_date, mail_date_seconds, millis_text, rfc3339_millis};
use crate::json::{list_of, member_of_push, Items, Json, Members, Value};
use crate::params::{sent_id, strings, SENT_ID_PREFIX};
use crate::text::{bytes_of, decimal, decimal_reads_back, decimal_text, index_named, same, trimmed};

verus! {

/// The text of a field without the white space around it; empty where the
/// field is no string.
pub open spec fn text_in(entry: Json, key: Seq<char>) -> Seq<char> {
    match entry.at(key) {
        Json::Text(s) => trimmed(s),
        _ => Seq::empty(),
    }
}

/// The text of a field without the white space around it; empty where the
/// field is no string.
pub fn text(entry: &Value, key: &str) -> (r: String)
    ensures
        r@ == text_in(entry@, key@),
{
    match entry.get(key) {
        Some(value) => match value.as_str() {
            Some(s) => s.trim().to_owned(),
            None => String::new(),
        },
        None => String::new(),
    }
}

/// The first text, or the second where the first is empty.
pub open spec fn either(first: Seq<char>, second: Seq<char>) -> Seq<char> {
    if first.len() == 0 {
        second
    } else {
        first
    }
}

/// A header of a part.
pub open spec fn header_pair(name: Seq<char>, value: Seq<char>) -> Json {
    Json::Record(Seq::empty().push(("name"@, Json::Text(name))).push(("value"@, Json::Text(value))))
}

/// Headers with one more, unless its value is empty.
pub open spec fn with_header(headers: Seq<Json>, name: Seq<char>, value: Seq<char>) -> Seq<Json> {
    if value.len() == 0 {
        headers
    } else {
        headers.push(header_pair(name, value))
    }
}

fn pair(name: &str, value: &str) -> (r: Value)
    ensures
        r@ == header_pair(name@, value@),
{
    Members::new().with("name", Value::text(name)).with("value", Value::text(value)).object()
}

/// Adds a header, unless its value is empty.
pub fn header(headers: Items, name: &str, value: &str) -> (r: Items)
    ensures
        r@ == with_header(headers@, name@, value@),
{
    if value.is_empty() {
        headers
    } else {
        headers.with(pair(name, value))
    }
}

/// A message id in its angle brackets.
pub open spec fn bracketed(id: Seq<char>) -> Seq<char> {
    if id.len() == 0 || id[0] == '<' {
        id
    } else {
        "<"@ + id + ">"@
    }
}

/// A message id in its angle brackets; an empty one stays empty, and one that
/// has them keeps them.
pub fn angle_bracketed(id: &str) -> (r: String)
    ensures
        r@ == bracketed(id@),
{
    if id.is_empty() || id.get_char(0) == '<' {
        id.to_owned()
    } else {
        let mut out = "<".to_owned();
        out.append(id);
        out.append(">");
        out
    }
}

/// The envelope of an entry. Only a full read names the message's id and the
/// ids that it refers to.
pub open spec fn envelope(entry: Json, full: bool) -> Seq<Json> {
    let short = with_header(
        with_header(
            with_header(
                with_header(Seq::empty(), "From"@, text_in(entry, "sender"@)),
                "To"@,
                text_in(entry, "recipient"@),
            ),
            "Subject"@,
            text_in(entry, "subject"@),
        ),
        "Date"@,
        text_in(entry, "date"@),
    );
    if full {
        with_header(
            with_header(short, "Message-ID"@, bracketed(text_in(entry, "message_id"@))),
            "References"@,
            text_in(entry, "references"@),
        )
    } else {
        short
    }
}

/// The envelope headers that every resource carries. A full read adds the two
/// that a list row never has.
pub fn envelope_headers(entry: &Value, full: bool) -> (r: Items)
    ensures
        r@ == envelope(entry@, full),
{
    let sender = text(entry, "sender");
    let recipient = text(entry, "recipient");
    let subject = text(entry, "subject");
    let date = text(entry, "date");
    let mut headers = Items::new();
    headers = header(headers, "From", sender.as_str());
    headers = header(headers, "To", recipient.as_str());
    headers = header(headers, "Subject", subject.as_str());
    headers = header(headers, "Date", date.as_str());
    if full {
        let message_id = angle_bracketed(text(entry, "message_id").as_str());
        let references = text(entry, "references");
        headers = header(headers, "Message-ID", message_id.as_str());
        headers = header(headers, "References", references.as_str());
    }
    headers
}

/// The labels of a message that came in.
pub open spec fn labels(read: bool) -> Seq<Seq<char>> {
    if read {
        Seq::empty().push("INBOX"@)
    } else {
        Seq::empty().push("INBOX"@).push("UNREAD"@)
    }
}

/// The labels of a message that came in.
pub fn label_ids(read: bool) -> (r: Vec<&'static str>)
    ensures
        strings(r@) == labels(read),
{
    let mut ids: Vec<&'static str> = Vec::new();
    ids.push("INBOX");
    if !read {
        ids.push("UNREAD");
    }
    assert(strings(ids@) =~= labels(read));
    ids
}

/// Texts as an array.
pub open spec fn texts(items: Seq<Seq<char>>) -> Json {
    Json::List(items.map_values(|s: Seq<char>| Json::Text(s)))
}

fn text_array(items: &Vec<&'static str>) -> (r: Value)
    ensures
        r@ == texts(strings(items@)),
{
    let mut out = Items::new();
    let ghost all = strings(items@).map_values(|s: Seq<char>| Json::Text(s));
    assert(all.take(0) =~= Seq::<Json>::empty());
    for i in 0..items.len()
        invariant
            all == strings(items@).map_values(|s: Seq<char>| Json::Text(s)),
            out@ == all.take(i as int),
    {
        out = out.with(Value::text(items[i]));
        assert(all.take(i + 1) =~= all.take(i as int).push(all[i as int]));
    }
    assert(all.take(items@.len() as int) =~= all);
    out.array()
}

/// A part of a message, or the whole of its content.
pub open spec fn part(mime_type: Seq<char>, headers: Seq<Json>, body: Json, parts: Seq<Json>) -> Json {
    Json::Record(
        Seq::empty().push(("mimeType"@, Json::Text(mime_type))).push(
            ("headers"@, Json::List(headers)),
        ).push(("body"@, body)).push(("parts"@, Json::List(parts))),
    )
}

fn make_part(mime_type: &str, headers: Items, body: Value, parts: Items) -> (r: Value)
    ensures
        r@ == part(mime_type@, headers@, body@, parts@),
{
    Members::new().with("mimeType", Value::text(mime_type)).with("headers", headers.array()).with(
        "body",
        body,
    ).with("parts", parts.array()).object()
}

/// A body of which only the size is told.
pub open spec fn size_only(size: int) -> Json {
    Json::Record(Seq::empty().push(("size"@, Json::Integer(size))))
}

fn make_size(size: u64) -> (r: Value)
    ensures
        r@ == size_only(size as int),
{
    Members::new().with("size", Value::unsigned(size)).object()
}

/// A body with its bytes in it.
pub open spec fn body_with(size: int, data: Seq<char>) -> Json {
    Json::Record(Seq::empty().push(("size"@, Json::Integer(size))).push(("data"@, Json::Text(data))))
}

/// A body with its bytes in it, already encoded.
pub fn encoded_body(size: usize, data: &str) -> (r: Value)
    ensures
        r@ == body_with(size as int, data@),
{
    Members::new().with("size", Value::unsigned(size as u64)).with("data", Value::text(data)).object()
}

/// The body for some bytes: how many they are, and their base64url.
pub open spec fn body_of(bytes: Seq<u8>) -> Json {
    body_with(bytes.len() as int, base64url(bytes))
}

/// Whether bytes are read back from the data that stands for them in a body.
pub open spec fn reads_back(bytes: Seq<u8>) -> bool {
    base64url_read(base64url(bytes)) == Some(bytes)
}

/// The body for some bytes, from which they can be read back.
pub fn body_for(bytes: &[u8]) -> (r: Value)
    ensures
        r@ == body_of(bytes@),
        reads_back(bytes@),
{
    let data = encode_url(bytes);
    encoded_body(bytes.len(), data.as_str())
}

/// A message resource.
pub open spec fn resource(
    id: Seq<char>,
    label_ids: Seq<Seq<char>>,
    internal_date: Seq<char>,
    size: int,
    snippet: Seq<char>,
    payload: Json,
) -> Json {
    Json::Record(
        Seq::empty().push(("id"@, Json::Text(id))).push(("threadId"@, Json::Text(id))).push(
            ("labelIds"@, texts(label_ids)),
        ).push(("internalDate"@, Json::Text(internal_date))).push(
            ("sizeEstimate"@, Json::Integer(size)),
        ).push(("snippet"@, Json::Text(snippet))).push(("payload"@, payload)),
    )
}

fn make_resource(
    id: &str,
    label_ids: &Vec<&'static str>,
    internal_date: &str,
    size: u64,
    snippet: &str,
    payload: Value,
) -> (r: Value)
    ensures
        r@ == resource(
            id@,
            strings(label_ids@),
            internal_date@,
            size as int,
            snippet@,
            payload@,
        ),
{
    Members::new().with("id", Value::text(id)).with("threadId", Value::text(id)).with(
        "labelIds",
        text_array(label_ids),
    ).with("internalDate", Value::text(internal_date)).with(
        "sizeEstimate",
        Value::unsigned(size),
    ).with("snippet", Value::text(snippet)).with("payload", payload).object()
}

/// The internal date for a date as the service names it.
pub open spec fn dated(date: Seq<char>) -> Seq<char> {
    millis_text(rfc3339_millis(date), mail_date_seconds(date))
}

/// Whether an entry is marked as read.
pub open spec fn is_read(entry: Json) -> bool {
    entry.at("read"@) == Json::Bool(true)
}

fn marked_read(entry: &Value) -> (r: bool)
    ensures
        r == is_read(entry@),
{
    match entry.get("read") {
        Some(Value::Bool(b)) => *b,
        _ => false,
    }
}

/// A row of the message list: headers and labels, and no body.
pub open spec fn listed(entry: Json) -> Json {
    resource(
        text_in(entry, "id"@),
        labels(is_read(entry)),
        dated(text_in(entry, "date"@)),
        0,
        Seq::empty(),
        part("text/plain"@, envelope(entry, false), size_only(0), Seq::empty()),
    )
}

/// A row of the message list: headers only, since the list carries no body for
/// a snippet or a reader to draw from.
pub fn list_row(entry: &Value) -> (r: Value)
    ensures
        r@ == listed(entry@),
{
    let id = text(entry, "id");
    let date = internal_date(text(entry, "date").as_str());
    let payload = make_part(
        "text/plain",
        envelope_headers(entry, false),
        make_size(0),
        Items::new(),
    );
    let none = String::new();
    make_resource(
        id.as_str(),
        &label_ids(marked_read(entry)),
        date.as_str(),
        0,
        none.as_str(),
        payload,
    )
}

/// What `char::to_uppercase` makes of a character.
pub uninterp spec fn uppercase(c: char) -> Seq<char>;

/// `char::to_uppercase`: the characters that a character becomes in upper
/// case, gathered in a string.
#[verifier::external_body]
fn to_upper(c: char) -> (r: String)
    ensures
        r@ == uppercase(c),
{
    c.to_uppercase().collect()
}

/// A text whose first character is replaced.
pub open spec fn replaced_first(first: Seq<char>, value: Seq<char>) -> Seq<char> {
    if value.len() == 0 {
        Seq::empty()
    } else {
        first + value.drop_first()
    }
}

/// A text whose first character is replaced.
pub fn with_first(first: &str, value: &str) -> (r: String)
    ensures
        r@ == replaced_first(first@, value@),
{
    if value.is_empty() {
        return String::new();
    }
    let mut out = first.to_owned();
    let rest = value.substring_char(1, value.unicode_len());
    assert(rest@ =~= value@.drop_first());
    out.append(rest);
    out
}

/// A text with its first character in upper case.
pub open spec fn capital(value: Seq<char>) -> Seq<char> {
    replaced_first(uppercase(value[0]), value)
}

/// A text with its first character in upper case.
pub fn capitalized(value: &str) -> (r: String)
    ensures
        r@ == capital(value@),
{
    if value.is_empty() {
        return String::new();
    }
    let first = to_upper(value.get_char(0));
    with_first(first.as_str(), value)
}

/// The date of a send: when it was sent, or else when it was asked for.
pub open spec fn send_date(entry: Json) -> Seq<char> {
    either(text_in(entry, "sent_at"@), text_in(entry, "created_at"@))
}

/// The envelope of a send.
pub open spec fn send_envelope(entry: Json) -> Seq<Json> {
    with_header(
        with_header(
            with_header(Seq::empty(), "To"@, text_in(entry, "recipient"@)),
            "Subject"@,
            text_in(entry, "subject"@),
        ),
        "Date"@,
        send_date(entry),
    )
}

/// A row of the recent-sends log with a body and a snippet.
pub open spec fn send_resource(entry: Json, snippet: Seq<char>, body: Json) -> Json {
    resource(
        sent_id(text_in(entry, "payment_hash"@)),
        Seq::empty().push("SENT"@),
        dated(send_date(entry)),
        0,
        snippet,
        part("text/plain"@, send_envelope(entry), body, Seq::empty()),
    )
}

fn make_send(entry: &Value, snippet: &str, body: Value) -> (r: Value)
    ensures
        r@ == send_resource(entry@, snippet@, body@),
{
    let mut id = SENT_ID_PREFIX.to_owned();
    id.append(text(entry, "payment_hash").as_str());
    let sent = text(entry, "sent_at");
    let date = if sent.as_str().is_empty() {
        text(entry, "created_at")
    } else {
        sent
    };
    let recipient = text(entry, "recipient");
    let subject = text(entry, "subject");
    let mut headers = Items::new();
    headers = header(headers, "To", recipient.as_str());
    headers = header(headers, "Subject", subject.as_str());
    headers = header(headers, "Date", date.as_str());
    let when = internal_date(date.as_str());
    let mut labels: Vec<&'static str> = Vec::new();
    labels.push("SENT");
    assert(strings(labels@) =~= Seq::empty().push("SENT"@));
    let payload = make_part("text/plain", headers, body, Items::new());
    make_resource(id.as_str(), &labels, when.as_str(), 0, snippet, payload)
}

/// What a row of the recent-sends log says of the payment and the delivery.
pub open spec fn send_snippet(entry: Json) -> Seq<char> {
    "Payment "@ + text_in(entry, "payment_status"@) + ", delivery "@ + text_in(
        entry,
        "delivery_status"@,
    )
}

/// A row of the recent-sends log.
pub open spec fn sent(entry: Json) -> Json {
    send_resource(entry, send_snippet(entry), size_only(0))
}

/// A row of the recent-sends log: the service's only record of outgoing mail,
/// and never a copy of what was sent.
pub fn sent_row(entry: &Value) -> (r: Value)
    ensures
        r@ == sent(entry@),
{
    let mut snippet = "Payment ".to_owned();
    snippet.append(text(entry, "payment_status").as_str());
    snippet.append(", delivery ");
    snippet.append(text(entry, "delivery_status").as_str());
    make_send(entry, snippet.as_str(), make_size(0))
}

/// What the reader of a send is told in place of a body.
pub open spec fn no_copy(payment: Seq<char>, delivery: Seq<char>) -> Seq<char> {
    "LNemail does not keep a copy of what you sent \u{2014} only this record that it was sent and whether it was delivered.\n\nPayment: "@
        + payment + "\nDelivery: "@ + delivery
}

/// What the reader of a send is told in place of a body.
pub fn no_copy_text(payment: &str, delivery: &str) -> (r: String)
    ensures
        r@ == no_copy(payment@, delivery@),
{
    let mut body =
        "LNemail does not keep a copy of what you sent \u{2014} only this record that it was sent and whether it was delivered.\n\nPayment: ".to_owned();
    body.append(payment);
    body.append("\nDelivery: ");
    body.append(delivery);
    body
}

/// What the reader of a send is told, with what the service knows of it.
pub open spec fn told(entry: Json) -> Seq<char> {
    no_copy(
        capital(text_in(entry, "payment_status"@)),
        capital(text_in(entry, "delivery_status"@)),
    )
}

/// A send opened as a message.
pub open spec fn sent_opened(entry: Json) -> Json {
    send_resource(entry, Seq::empty(), body_of(bytes_of(told(entry))))
}

/// A send opened as a message: there is no body to show, so the reader is told
/// why.
pub fn sent_message(entry: &Value) -> (r: Value)
    ensures
        r@ == sent_opened(entry@),
        reads_back(bytes_of(told(entry@))),
{
    let payment = capitalized(text(entry, "payment_status").as_str());
    let delivery = capitalized(text(entry, "delivery_status").as_str());
    let body = no_copy_text(payment.as_str(), delivery.as_str());
    let none = String::new();
    make_send(entry, none.as_str(), body_for(body.as_str().as_bytes()))
}

/// What the reader of a send that this device remembers is shown.
pub open spec fn kept_here(body: Seq<char>) -> Seq<char> {
    "Kept on this device only \u{2014} LNemail itself still keeps no copy.\n\n"@ + body
}

/// A send opened as a message, with the body that this device remembers.
pub open spec fn sent_recalled(entry: Json, cached: Json) -> Json {
    send_resource(
        entry,
        Seq::empty(),
        body_of(bytes_of(kept_here(text_in(cached, "body"@)))),
    )
}

/// A send opened as a message, with the body that this device remembers.
/// Everything else comes from the service's own record: the cache supplies
/// nothing that a listing sorts or matches by.
pub fn sent_message_from_cache(entry: &Value, cached: &Value) -> (r: Value)
    ensures
        r@ == sent_recalled(entry@, cached@),
        reads_back(bytes_of(kept_here(text_in(cached@, "body"@)))),
{
    let mut body =
        "Kept on this device only \u{2014} LNemail itself still keeps no copy.\n\n".to_owned();
    body.append(text(cached, "body").as_str());
    let none = String::new();
    make_send(entry, none.as_str(), body_for(body.as_str().as_bytes()))
}

/// The bytes of an attachment, once what `base64` reads from its content is
/// known: that, where its encoding is base64, and none where nothing is read;
/// the content itself in any other encoding.
pub open spec fn content_bytes(item: Json, read: Option<Seq<u8>>) -> Seq<u8> {
    if text_in(item, "encoding"@) == "base64"@ {
        match read {
            Some(bytes) => bytes,
            None => Seq::empty(),
        }
    } else {
        bytes_of(text_in(item, "content"@))
    }
}

/// The bytes of an attachment, once what was read from its content as base64
/// is known.
pub fn attachment_bytes_from(item: &Value, read: Option<Vec<u8>>) -> (r: Vec<u8>)
    ensures
        r@ == content_bytes(item@, seq_of(read)),
{
    if same(text(item, "encoding").as_str(), "base64") {
        match read {
            Some(bytes) => bytes,
            None => Vec::new(),
        }
    } else {
        text(item, "content").as_str().as_bytes_vec()
    }
}

/// The bytes of an attachment.
pub open spec fn attached_bytes(item: Json) -> Seq<u8> {
    content_bytes(item, base64_read(text_in(item, "content"@)))
}

/// The bytes of an attachment: its content decoded, where it is base64.
pub fn attachment_bytes(item: &Value) -> (r: Vec<u8>)
    ensures
        r@ == attached_bytes(item@),
{
    if same(text(item, "encoding").as_str(), "base64") {
        attachment_bytes_from(item, decode_standard(text(item, "content").as_str()))
    } else {
        attachment_bytes_from(item, None)
    }
}

/// A character as it stands in a quoted string.
pub open spec fn quoted_char(c: char) -> Seq<char> {
    if c == '\\' || c == '"' {
        Seq::empty().push('\\').push(c)
    } else {
        Seq::empty().push(c)
    }
}

/// A text as it stands in a quoted string: a backslash before each quote and
/// each backslash.
pub open spec fn quoted(s: Seq<char>) -> Seq<char>
    decreases s.len(),
{
    if s.len() == 0 {
        Seq::empty()
    } else {
        quoted(s.drop_last()) + quoted_char(s.last())
    }
}

fn quote(s: &str) -> (r: String)
    ensures
        r@ == quoted(s@),
{
    let mut out = String::new();
    let ghost all = s@;
    assert(all.take(0) =~= Seq::<char>::empty());
    for c in it: s.chars()
        invariant
            all == s@,
            it.seq() == all,
            0 <= it.index() <= all.len(),
            out@ == quoted(all.take(it.index() as int)),
    {
        let ghost k = it.index() as int;
        assert(all.take(k + 1).drop_last() =~= all.take(k));
        if c == '\\' || c == '"' {
            out.push('\\');
        }
        out.push(c);
        assert(out@ =~= quoted(all.take(k)) + quoted_char(c));
    }
    assert(all.take(all.len() as int) =~= all);
    out
}

/// What a reader takes from the inside of a quoted string: the text up to the
/// closing quote, a backslash standing for the character behind it, and what
/// follows the quote.
pub open spec fn read_quoted(s: Seq<char>) -> Option<(Seq<char>, Seq<char>)>
    decreases s.len(),
{
    if s.len() == 0 {
        None
    } else if s[0] == '"' {
        Some((Seq::empty(), s.drop_first()))
    } else if s[0] == '\\' {
        if s.len() < 2 {
            None
        } else {
            match read_quoted(s.skip(2)) {
                Some((text, rest)) => Some((Seq::empty().push(s[1]) + text, rest)),
                None => None,
            }
        }
    } else {
        match read_quoted(s.drop_first()) {
            Some((text, rest)) => Some((Seq::empty().push(s[0]) + text, rest)),
            None => None,
        }
    }
}

proof fn quoted_from_the_front(s: Seq<char>)
    requires
        s.len() > 0,
    ensures
        quoted(s) == quoted_char(s[0]) + quoted(s.drop_first()),
    decreases s.len(),
{
    if s.len() == 1 {
        assert(s.drop_last() =~= Seq::<char>::empty());
        assert(s.drop_first() =~= Seq::<char>::empty());
        assert(quoted(s.drop_last()) =~= Seq::<char>::empty());
        assert(quoted(s) =~= quoted_char(s[0]));
        assert(quoted_char(s[0]) + quoted(s.drop_first()) =~= quoted_char(s[0]));
    } else {
        quoted_from_the_front(s.drop_last());
        assert(s.drop_last().drop_first() =~= s.drop_first().drop_last());
        assert(quoted(s) =~= quoted_char(s[0]) + quoted(s.drop_first()));
    }
}

/// A quote or a backslash in a text cannot end its quoted string early: a
/// reader takes the whole text, and what stands behind the closing quote.
pub proof fn a_quoted_text_reads_back(s: Seq<char>, rest: Seq<char>)
    ensures
        read_quoted(quoted(s).push('"') + rest) == Some((s, rest)),
    decreases s.len(),
{
    let whole = quoted(s).push('"') + rest;
    if s.len() == 0 {
        assert(whole.drop_first() =~= rest);
        assert(s =~= Seq::<char>::empty());
    } else {
        quoted_from_the_front(s);
        let tail = s.drop_first();
        a_quoted_text_reads_back(tail, rest);
        let inner = quoted(tail).push('"') + rest;
        assert(Seq::empty().push(s[0]) + tail =~= s);
        if s[0] == '\\' || s[0] == '"' {
            assert(whole.skip(2) =~= inner);
            assert(whole[0] == '\\' && whole[1] == s[0]);
        } else {
            assert(whole.drop_first() =~= inner);
            assert(whole[0] == s[0]);
        }
    }
}

/// The part for the attachment with an index.
pub open spec fn attachment(index: int, item: Json) -> Json {
    let filename = text_in(item, "filename"@);
    let name = Json::Text(decimal(index as nat));
    Json::Record(
        Seq::empty().push(("partId"@, name)).push(
            (
                "mimeType"@,
                Json::Text(
                    either(text_in(item, "content_type"@), "application/octet-stream"@),
                ),
            ),
        ).push(("filename"@, Json::Text(filename))).push(
            (
                "headers"@,
                Json::List(
                    Seq::empty().push(
                        header_pair(
                            "Content-Disposition"@,
                            "attachment; filename=\""@ + quoted(filename) + "\""@,
                        ),
                    ),
                ),
            ),
        ).push(
            (
                "body"@,
                Json::Record(
                    Seq::empty().push(
                        ("size"@, Json::Integer(attached_bytes(item).len() as int)),
                    ).push(("attachmentId"@, name)),
                ),
            ),
        ).push(("parts"@, Json::List(Seq::empty()))),
    )
}

/// The part for the attachment with an index, which is the name that it is
/// asked for by.
pub fn attachment_part(index: usize, item: &Value) -> (r: Value)
    ensures
        r@ == attachment(index as int, item@),
{
    let filename = text(item, "filename");
    let kind = text(item, "content_type");
    let mime_type = if kind.as_str().is_empty() {
        "application/octet-stream".to_owned()
    } else {
        kind
    };
    let name = decimal_text(index as u64);
    let mut disposition = "attachment; filename=\"".to_owned();
    disposition.append(quote(filename.as_str()).as_str());
    disposition.append("\"");
    let bytes = attachment_bytes(item);
    Members::new().with("partId", Value::text(name.as_str())).with(
        "mimeType",
        Value::text(mime_type.as_str()),
    ).with("filename", Value::text(filename.as_str())).with(
        "headers",
        Items::new().with(pair("Content-Disposition", disposition.as_str())).array(),
    ).with(
        "body",
        Members::new().with("size", Value::unsigned(bytes.len() as u64)).with(
            "attachmentId",
            Value::text(name.as_str()),
        ).object(),
    ).with("parts", Items::new().array()).object()
}

/// The `Content-Type` header of a part.
pub open spec fn content_type(mime_type: Seq<char>) -> Json {
    header_pair("Content-Type"@, mime_type + "; charset=utf-8"@)
}

fn make_content_type(mime_type: &str) -> (r: Value)
    ensures
        r@ == content_type(mime_type@),
{
    let mut value = mime_type.to_owned();
    value.append("; charset=utf-8");
    pair("Content-Type", value.as_str())
}

/// The part for a text.
pub open spec fn text_leaf(mime_type: Seq<char>, body: Seq<char>) -> Json {
    part(
        mime_type,
        Seq::empty().push(content_type(mime_type)),
        body_of(bytes_of(body)),
        Seq::empty(),
    )
}

/// The part for a text, from whose data the text can be read back.
pub fn text_part(mime_type: &str, body: &str) -> (r: Value)
    ensures
        r@ == text_leaf(mime_type@, body@),
        reads_back(bytes_of(body@)),
{
    make_part(
        mime_type,
        Items::new().with(make_content_type(mime_type)),
        body_for(body.as_bytes()),
        Items::new(),
    )
}

/// What stands at one level of a message: its type, its body and its parts.
pub struct Level {
    pub mime_type: Seq<char>,
    pub body: Json,
    pub parts: Seq<Json>,
}

/// The level for a message's texts: the plain one, the HTML one, or both as
/// alternatives.
pub open spec fn text_level(plain: Seq<char>, html: Seq<char>) -> Level {
    if html.len() == 0 {
        Level {
            mime_type: "text/plain"@,
            body: body_of(bytes_of(plain)),
            parts: Seq::empty(),
        }
    } else if plain.len() == 0 {
        Level { mime_type: "text/html"@, body: body_of(bytes_of(html)), parts: Seq::empty() }
    } else {
        Level {
            mime_type: "multipart/alternative"@,
            body: size_only(0),
            parts: Seq::empty().push(text_leaf("text/plain"@, plain)).push(
                text_leaf("text/html"@, html),
            ),
        }
    }
}

/// The part for a message's texts, where it is not the whole message.
pub open spec fn text_tree(plain: Seq<char>, html: Seq<char>) -> Json {
    if html.len() == 0 {
        text_leaf("text/plain"@, plain)
    } else if plain.len() == 0 {
        text_leaf("text/html"@, html)
    } else {
        part(
            "multipart/alternative"@,
            Seq::empty(),
            size_only(0),
            text_level(plain, html).parts,
        )
    }
}

/// The parts for the first `n` attachments.
pub open spec fn attachment_parts(items: Seq<Json>, n: int) -> Seq<Json>
    decreases n,
{
    if n <= 0 {
        Seq::empty()
    } else {
        attachment_parts(items, n - 1).push(attachment(n - 1, items[n - 1]))
    }
}

/// How many bytes the first `n` attachments hold together.
pub open spec fn attached_total(items: Seq<Json>, n: int) -> nat
    decreases n,
{
    if n <= 0 {
        0
    } else {
        attached_total(items, n - 1) + attached_bytes(items[n - 1]).len()
    }
}

/// The attachments of an entry.
pub open spec fn attachments_in(entry: Json) -> Seq<Json> {
    match entry.at("attachments"@) {
        Json::List(items) => items,
        _ => Seq::empty(),
    }
}

/// The plain text of an entry.
pub open spec fn plain_text(entry: Json) -> Seq<char> {
    either(text_in(entry, "body_plain"@), text_in(entry, "body"@))
}

/// The top level of a message: its texts, and where it has attachments a
/// wrapper around the texts and each of them.
pub open spec fn top_level(entry: Json) -> Level {
    let plain = plain_text(entry);
    let html = text_in(entry, "body_html"@);
    let items = attachments_in(entry);
    if items.len() == 0 {
        text_level(plain, html)
    } else {
        Level {
            mime_type: "multipart/mixed"@,
            body: size_only(0),
            parts: Seq::empty().push(text_tree(plain, html)) + attachment_parts(
                items,
                items.len() as int,
            ),
        }
    }
}

/// The content of a message. The top level alone carries the envelope.
pub open spec fn payload(entry: Json) -> Json {
    let top = top_level(entry);
    part(
        top.mime_type,
        envelope(entry, true).push(content_type(top.mime_type)),
        top.body,
        top.parts,
    )
}

/// How many bytes the attachments and the texts of an entry hold together, or
/// the largest number of 64 bits where they hold more.
pub open spec fn total_size(entry: Json) -> int {
    let items = attachments_in(entry);
    let total = attached_total(items, items.len() as int) + bytes_of(plain_text(entry)).len()
        + bytes_of(text_in(entry, "body_html"@)).len();
    if total <= u64::MAX {
        total as int
    } else {
        u64::MAX as int
    }
}

/// Whether the plain text of an entry is in the message that is made of it.
pub open spec fn plain_is_shown(entry: Json) -> bool {
    plain_text(entry).len() > 0 || text_in(entry, "body_html"@).len() == 0
}

/// Whether the HTML text of an entry is in the message that is made of it.
pub open spec fn html_is_shown(entry: Json) -> bool {
    text_in(entry, "body_html"@).len() > 0
}

/// A message read in full.
pub open spec fn opened(entry: Json) -> Json {
    resource(
        text_in(entry, "id"@),
        labels(is_read(entry)),
        dated(text_in(entry, "date"@)),
        total_size(entry),
        Seq::empty(),
        payload(entry),
    )
}

/// Parts behind those that are there, and how many bytes they hold.
fn append_attachments(parts: Items, items: &Vec<Value>) -> (r: (Items, u64))
    ensures
        r.0@ == parts@ + attachment_parts(list_of(items@), items@.len() as int),
        r.1 == (if attached_total(list_of(items@), items@.len() as int) <= u64::MAX {
            attached_total(list_of(items@), items@.len() as int)
        } else {
            u64::MAX as nat
        }),
{
    let ghost first = parts@;
    let ghost all = list_of(items@);
    let mut parts = parts;
    let mut total: u64 = 0;
    assert(first + attachment_parts(all, 0) =~= first);
    for i in 0..items.len()
        invariant
            all == list_of(items@),
            parts@ == first + attachment_parts(all, i as int),
            total == (if attached_total(all, i as int) <= u64::MAX {
                attached_total(all, i as int)
            } else {
                u64::MAX as nat
            }),
    {
        assert(all[i as int] == items@[i as int]@);
        parts = parts.with(attachment_part(i, &items[i]));
        let size: usize = attachment_bytes(&items[i]).len();
        total = total.saturating_add(size as u64);
        assert(parts@ =~= first + attachment_parts(all, i + 1));
    }
    (parts, total)
}

/// A message read in full: the multipart tree that never goes over the
/// service's own wire, built from bodies that it gives apart.
pub fn full_message(entry: &Value) -> (r: Value)
    ensures
        r@ == opened(entry@),
        plain_is_shown(entry@) ==> reads_back(bytes_of(plain_text(entry@))),
        html_is_shown(entry@) ==> reads_back(bytes_of(text_in(entry@, "body_html"@))),
{
    let id = text(entry, "id");
    let body_plain = text(entry, "body_plain");
    let plain = if body_plain.as_str().is_empty() {
        text(entry, "body")
    } else {
        body_plain
    };
    let html = text(entry, "body_html");
    let none: Vec<Value> = Vec::new();
    assert(list_of(none@) =~= Seq::<Json>::empty());
    let items = match entry.get("attachments") {
        Some(value) => match value.as_array() {
            Some(items) => items,
            None => &none,
        },
        None => &none,
    };
    assert(list_of(items@) == attachments_in(entry@));
    let mut size: u64 = 0;
    let headers = envelope_headers(entry, true);
    let payload = if items.len() == 0 {
        if html.as_str().is_empty() {
            make_part(
                "text/plain",
                headers.with(make_content_type("text/plain")),
                body_for(plain.as_str().as_bytes()),
                Items::new(),
            )
        } else if plain.as_str().is_empty() {
            make_part(
                "text/html",
                headers.with(make_content_type("text/html")),
                body_for(html.as_str().as_bytes()),
                Items::new(),
            )
        } else {
            make_part(
                "multipart/alternative",
                headers.with(make_content_type("multipart/alternative")),
                make_size(0),
                Items::new().with(text_part("text/plain", plain.as_str())).with(
                    text_part("text/html", html.as_str()),
                ),
            )
        }
    } else {
        let texts = if html.as_str().is_empty() {
            text_part("text/plain", plain.as_str())
        } else if plain.as_str().is_empty() {
            text_part("text/html", html.as_str())
        } else {
            make_part(
                "multipart/alternative",
                Items::new(),
                make_size(0),
                Items::new().with(text_part("text/plain", plain.as_str())).with(
                    text_part("text/html", html.as_str()),
                ),
            )
        };
        let (parts, attached) = append_attachments(Items::new().with(texts), items);
        size = attached;
        make_part(
            "multipart/mixed",
            headers.with(make_content_type("multipart/mixed")),
            make_size(0),
            parts,
        )
    };
    size = size.saturating_add(plain.as_str().as_bytes().len() as u64);
    size = size.saturating_add(html.as_str().as_bytes().len() as u64);
    let date = internal_date(text(entry, "date").as_str());
    let snippet = String::new();
    make_resource(
        id.as_str(),
        &label_ids(marked_read(entry)),
        date.as_str(),
        size,
        snippet.as_str(),
        payload,
    )
}

/// One attachment's bytes, for the index that the full message names it by.
/// There is no endpoint for one alone, so it is taken out of a fresh read.
pub fn attachment_data(entry: &Value, index: usize) -> (r: Result<Value, &'static str>)
    ensures
        match r {
            Ok(data) => {
                &&& index < attachments_in(entry@).len()
                &&& data@ == body_of(attached_bytes(attachments_in(entry@)[index as int]))
                &&& reads_back(attached_bytes(attachments_in(entry@)[index as int]))
            },
            Err(e) => index >= attachments_in(entry@).len() && e == "lnemail_not_found",
        },
{
    let items = match entry.get("attachments") {
        Some(value) => match value.as_array() {
            Some(items) => items,
            None => return Err("lnemail_not_found"),
        },
        None => return Err("lnemail_not_found"),
    };
    if index >= items.len() {
        return Err("lnemail_not_found");
    }
    assert(list_of(items@)[index as int] == items@[index as int]@);
    let bytes = attachment_bytes(&items[index]);
    Ok(body_for(bytes.as_slice()))
}

proof fn attachment_parts_by_index(items: Seq<Json>, n: int)
    requires
        0 <= n <= items.len(),
    ensures
        attachment_parts(items, n).len() == n,
        forall|i: int|
            0 <= i < n ==> #[trigger] attachment_parts(items, n)[i] == attachment(i, items[i]),
    decreases n,
{
    if n > 0 {
        attachment_parts_by_index(items, n - 1);
    }
}

/// The id that a full message gives to an attachment is the index by which the
/// attachment is read again, and the size that it tells is the size of what is
/// then read.
pub proof fn an_attachment_is_read_by_the_name_it_is_given(entry: Json, i: int)
    requires
        0 <= i < attachments_in(entry).len(),
        i <= usize::MAX,
    ensures
        ({
            let told = top_level(entry).parts[i + 1];
            let read = body_of(attached_bytes(attachments_in(entry)[i]));
            &&& told == attachment(i, attachments_in(entry)[i])
            &&& told.at("body"@).at("attachmentId"@) is Text
            &&& index_named(told.at("body"@).at("attachmentId"@)->Text_0) == Some(i as usize)
            &&& told.at("body"@).at("size"@) == read.at("size"@)
        }),
{
    let items = attachments_in(entry);
    attachment_parts_by_index(items, items.len() as int);
    let told = top_level(entry).parts[i + 1];
    assert(told == attachment_parts(items, items.len() as int)[i]);
    decimal_reads_back(i as nat);
    reveal_strlit("partId");
    reveal_strlit("mimeType");
    reveal_strlit("filename");
    reveal_strlit("headers");
    reveal_strlit("body");
    reveal_strlit("size");
    reveal_strlit("attachmentId");
    broadcast use member_of_push;

    assert("partId"@.len() == 6 && "mimeType"@.len() == 8 && "filename"@.len() == 8
        && "headers"@.len() == 7 && "body"@.len() == 4 && "size"@.len() == 4
        && "attachmentId"@.len() == 12);
}

} // verus!
