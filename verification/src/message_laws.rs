//! What a client finds in the resource of a message when it looks things up by
//! name: each header, each text, each attachment and each label, against the
//! fields that the service gave.
use vstd::prelude::*;
use vstd::string::*;

use crate::codec::{base64_read, base64url};
use crate::dates::{mail_date_seconds, rfc3339_millis};
use crate::json::{member, member_of_push, Json, Record};
use crate::resource::{
    a_quoted_text_reads_back, attached_bytes, attached_total, attachment, attachment_parts,
    attachments_in, body_of, content_type, dated, envelope, header_pair, listed, opened, plain_text,
    quoted, read_quoted, send_envelope, sent, sent_opened, sent_recalled, text_in, text_leaf,
    text_tree, top_level, uppercase, with_header,
};
use crate::text::{
    bytes_of, decimal, decimal_reads_back, digits_value, is_digit, trimmed, white_space,
};

verus! {

/// Whether a text is white space throughout.
pub open spec fn blank(s: Seq<char>) -> bool {
    forall|i: int| 0 <= i < s.len() ==> white_space(#[trigger] s[i])
}

/// Trimming takes white space off both ends and nothing else: what it leaves
/// neither begins nor ends with white space, and what it takes is white space.
pub proof fn what_trimming_leaves(s: Seq<char>)
    ensures
        exists|before: Seq<char>, after: Seq<char>|
            s == #[trigger] (before + trimmed(s) + after) && blank(before) && blank(after),
        trimmed(s).len() > 0 ==> !white_space(trimmed(s)[0]) && !white_space(trimmed(s).last()),
    decreases s.len(),
{
    let none = Seq::<char>::empty();
    if s.len() > 0 && white_space(s.first()) {
        let rest = s.drop_first();
        what_trimming_leaves(rest);
        let (before, after) = choose|before: Seq<char>, after: Seq<char>|
            rest == #[trigger] (before + trimmed(rest) + after) && blank(before) && blank(after);
        let longer = none.push(s[0]) + before;
        assert(s =~= none.push(s[0]) + rest);
        assert(longer + trimmed(s) + after =~= none.push(s[0]) + (before + trimmed(rest) + after));
        assert(blank(longer));
    } else if s.len() > 0 && white_space(s.last()) {
        let rest = s.drop_last();
        what_trimming_leaves(rest);
        let (before, after) = choose|before: Seq<char>, after: Seq<char>|
            rest == #[trigger] (before + trimmed(rest) + after) && blank(before) && blank(after);
        let longer = after.push(s.last());
        assert(s =~= rest.push(s.last()));
        assert(before + trimmed(s) + longer =~= (before + trimmed(rest) + after).push(s.last()));
        assert(blank(longer));
    } else {
        assert(s =~= none + trimmed(s) + none);
    }
}

/// A field is found by its name: the first of the name counts, and one that is
/// not there is none.
pub proof fn a_field_is_found_by_its_name(fields: Record, key: Seq<char>)
    ensures
        match Json::Record(fields).get(key) {
            Some(value) => exists|i: int|
                0 <= i < fields.len() && #[trigger] fields[i] == (key, value) && forall|j: int|
                    0 <= j < i ==> (#[trigger] fields[j]).0 != key,
            None => forall|i: int| 0 <= i < fields.len() ==> (#[trigger] fields[i]).0 != key,
        },
    decreases fields.len(),
{
    if fields.len() > 0 {
        let rest = fields.drop_first();
        a_field_is_found_by_its_name(rest, key);
        if fields[0].0 == key {
            assert(fields[0] == (key, fields[0].1));
        } else {
            match member(rest, key) {
                Some(value) => {
                    let i = choose|i: int|
                        0 <= i < rest.len() && #[trigger] rest[i] == (key, value) && forall|j: int|
                            0 <= j < i ==> (#[trigger] rest[j]).0 != key;
                    assert(fields[i + 1] == (key, value));
                    assert forall|j: int| 0 <= j < i + 1 implies (#[trigger] fields[j]).0
                        != key by {
                        if j > 0 {
                            assert(rest[j - 1].0 != key);
                        }
                    }
                },
                None => {
                    assert forall|j: int| 0 <= j < fields.len() implies (#[trigger] fields[j]).0
                        != key by {
                        if j > 0 {
                            assert(rest[j - 1].0 != key);
                        }
                    }
                },
            }
        }
    }
}

/// The text of a field is that of the string in it without the white space
/// around it; what holds no string has no text.
pub proof fn a_field_has_its_own_text(entry: Json, key: Seq<char>)
    ensures
        match entry.get(key) {
            Some(Json::Text(s)) => text_in(entry, key) == trimmed(s),
            _ => text_in(entry, key).len() == 0,
        },
{
}

proof fn names_differ()
    ensures
        "name"@ != "value"@,
        "mimeType"@ != "headers"@,
        "mimeType"@ != "body"@,
        "mimeType"@ != "parts"@,
        "mimeType"@ != "partId"@,
        "mimeType"@ != "filename"@,
        "headers"@ != "body"@,
        "headers"@ != "parts"@,
        "headers"@ != "partId"@,
        "headers"@ != "filename"@,
        "body"@ != "parts"@,
        "body"@ != "partId"@,
        "body"@ != "filename"@,
        "parts"@ != "partId"@,
        "parts"@ != "filename"@,
        "partId"@ != "filename"@,
        "size"@ != "data"@,
        "size"@ != "attachmentId"@,
        "data"@ != "attachmentId"@,
        "id"@ != "threadId"@,
        "id"@ != "labelIds"@,
        "id"@ != "internalDate"@,
        "id"@ != "sizeEstimate"@,
        "id"@ != "snippet"@,
        "id"@ != "payload"@,
        "threadId"@ != "labelIds"@,
        "threadId"@ != "internalDate"@,
        "threadId"@ != "sizeEstimate"@,
        "threadId"@ != "snippet"@,
        "threadId"@ != "payload"@,
        "labelIds"@ != "internalDate"@,
        "labelIds"@ != "sizeEstimate"@,
        "labelIds"@ != "snippet"@,
        "labelIds"@ != "payload"@,
        "internalDate"@ != "sizeEstimate"@,
        "internalDate"@ != "snippet"@,
        "internalDate"@ != "payload"@,
        "sizeEstimate"@ != "snippet"@,
        "sizeEstimate"@ != "payload"@,
        "snippet"@ != "payload"@,
{
    reveal_strlit("name");
    reveal_strlit("value");
    reveal_strlit("mimeType");
    reveal_strlit("headers");
    reveal_strlit("body");
    reveal_strlit("parts");
    reveal_strlit("partId");
    reveal_strlit("filename");
    reveal_strlit("size");
    reveal_strlit("data");
    reveal_strlit("attachmentId");
    reveal_strlit("id");
    reveal_strlit("threadId");
    reveal_strlit("labelIds");
    reveal_strlit("internalDate");
    reveal_strlit("sizeEstimate");
    reveal_strlit("snippet");
    reveal_strlit("payload");
    assert("name"@.len() == 4 && "value"@.len() == 5);
    assert("mimeType"@.len() == 8 && "headers"@.len() == 7 && "body"@.len() == 4);
    assert("parts"@.len() == 5 && "id"@.len() == 2 && "partId"@.len() == 6);
    assert("filename"@[0] == 'f' && "mimeType"@[0] == 'm' && "filename"@.len() == 8);
    assert("size"@[0] == 's' && "data"@[0] == 'd' && "attachmentId"@.len() == 12);
    assert("threadId"@[0] == 't' && "labelIds"@[0] == 'l' && "snippet"@[0] == 's');
    assert("payload"@[0] == 'p' && "sizeEstimate"@[0] == 's' && "internalDate"@[0] == 'i');
    assert("sizeEstimate"@.len() == 12 && "snippet"@.len() == 7);
}

/// What the first header with a name says.
pub open spec fn value_of(headers: Seq<Json>, name: Seq<char>) -> Option<Json>
    decreases headers.len(),
{
    if headers.len() == 0 {
        None
    } else if headers[0].at("name"@) == Json::Text(name) {
        Some(headers[0].at("value"@))
    } else {
        value_of(headers.drop_first(), name)
    }
}

/// Whether the headers say a text under a name: where the text is empty, there
/// is no header of the name.
pub open spec fn tell(headers: Seq<Json>, name: Seq<char>, text: Seq<char>) -> bool {
    value_of(headers, name) == (if text.len() == 0 {
        None
    } else {
        Some(Json::Text(text))
    })
}

/// The headers of a part.
pub open spec fn headers_in(part: Json) -> Seq<Json> {
    match part.at("headers"@) {
        Json::List(headers) => headers,
        _ => Seq::empty(),
    }
}

proof fn value_of_push(headers: Seq<Json>, name: Seq<char>, value: Seq<char>, key: Seq<char>)
    ensures
        value_of(headers.push(header_pair(name, value)), key) == (match value_of(headers, key) {
            Some(found) => Some(found),
            None => if name == key {
                Some(Json::Text(value))
            } else {
                None
            },
        }),
    decreases headers.len(),
{
    broadcast use member_of_push;

    names_differ();
    let all = headers.push(header_pair(name, value));
    if headers.len() == 0 {
        assert(all.drop_first() =~= headers);
        assert(all[0] == header_pair(name, value));
        assert(header_pair(name, value).at("name"@) == Json::Text(name));
        assert(header_pair(name, value).at("value"@) == Json::Text(value));
    } else {
        assert(all.drop_first() =~= headers.drop_first().push(header_pair(name, value)));
        assert(all[0] == headers[0]);
        value_of_push(headers.drop_first(), name, value, key);
    }
}

proof fn value_with_header(headers: Seq<Json>, name: Seq<char>, value: Seq<char>, key: Seq<char>)
    ensures
        value_of(with_header(headers, name, value), key) == (match value_of(headers, key) {
            Some(found) => Some(found),
            None => if name == key && value.len() > 0 {
                Some(Json::Text(value))
            } else {
                None
            },
        }),
{
    if value.len() > 0 {
        value_of_push(headers, name, value, key);
    }
}

proof fn header_names_differ()
    ensures
        "From"@ != "To"@,
        "From"@ != "Subject"@,
        "From"@ != "Date"@,
        "From"@ != "Message-ID"@,
        "From"@ != "References"@,
        "From"@ != "Content-Type"@,
        "To"@ != "Subject"@,
        "To"@ != "Date"@,
        "To"@ != "Message-ID"@,
        "To"@ != "References"@,
        "To"@ != "Content-Type"@,
        "Subject"@ != "Date"@,
        "Subject"@ != "Message-ID"@,
        "Subject"@ != "References"@,
        "Subject"@ != "Content-Type"@,
        "Date"@ != "Message-ID"@,
        "Date"@ != "References"@,
        "Date"@ != "Content-Type"@,
        "Message-ID"@ != "References"@,
        "Message-ID"@ != "Content-Type"@,
        "References"@ != "Content-Type"@,
{
    reveal_strlit("From");
    reveal_strlit("To");
    reveal_strlit("Subject");
    reveal_strlit("Date");
    reveal_strlit("Message-ID");
    reveal_strlit("References");
    reveal_strlit("Content-Type");
    assert("From"@[0] == 'F' && "To"@[0] == 'T' && "Subject"@[0] == 'S' && "Date"@[0] == 'D');
    assert("Message-ID"@[0] == 'M' && "References"@[0] == 'R' && "Content-Type"@[0] == 'C');
}

/// What the envelope of an entry says under a name.
proof fn envelope_values(entry: Json, full: bool, key: Seq<char>)
    ensures
        ({
            let h = envelope(entry, full);
            &&& key == "From"@ ==> tell(h, key, text_in(entry, "sender"@))
            &&& key == "To"@ ==> tell(h, key, text_in(entry, "recipient"@))
            &&& key == "Subject"@ ==> tell(h, key, text_in(entry, "subject"@))
            &&& key == "Date"@ ==> tell(h, key, text_in(entry, "date"@))
            &&& key == "Message-ID"@ ==> tell(
                h,
                key,
                if full {
                    in_brackets(text_in(entry, "message_id"@))
                } else {
                    Seq::empty()
                },
            )
            &&& key == "References"@ ==> tell(
                h,
                key,
                if full {
                    text_in(entry, "references"@)
                } else {
                    Seq::empty()
                },
            )
            &&& key != "From"@ && key != "To"@ && key != "Subject"@ && key != "Date"@ && key
                != "Message-ID"@ && key != "References"@ ==> value_of(h, key) is None
        }),
{
    header_names_differ();
    let none = Seq::<Json>::empty();
    let h1 = with_header(none, "From"@, text_in(entry, "sender"@));
    let h2 = with_header(h1, "To"@, text_in(entry, "recipient"@));
    let h3 = with_header(h2, "Subject"@, text_in(entry, "subject"@));
    let h4 = with_header(h3, "Date"@, text_in(entry, "date"@));
    let id = text_in(entry, "message_id"@);
    let bracketed = in_brackets(id);
    let h5 = with_header(h4, "Message-ID"@, bracketed);
    let h6 = with_header(h5, "References"@, text_in(entry, "references"@));
    assert(value_of(none, key) is None);
    value_with_header(none, "From"@, text_in(entry, "sender"@), key);
    value_with_header(h1, "To"@, text_in(entry, "recipient"@), key);
    value_with_header(h2, "Subject"@, text_in(entry, "subject"@), key);
    value_with_header(h3, "Date"@, text_in(entry, "date"@), key);
    value_with_header(h4, "Message-ID"@, bracketed, key);
    value_with_header(h5, "References"@, text_in(entry, "references"@), key);
    if full {
        assert(envelope(entry, full) == h6);
    } else {
        assert(envelope(entry, full) == h4);
    }
}

/// An id in angle brackets: one that has an opening one stays as it is, and so
/// does an empty one.
pub open spec fn in_brackets(id: Seq<char>) -> Seq<char> {
    if id.len() > 0 && id[0] != '<' {
        "<"@ + id + ">"@
    } else {
        id
    }
}

/// One for a field that has a text, and none for one that has none.
pub open spec fn there(entry: Json, key: Seq<char>) -> int {
    if text_in(entry, key).len() > 0 {
        1
    } else {
        0
    }
}

/// Each header of a message has the value of its own field, and stands once, in
/// a row of the list as in the message read in full: From the sender, To the recipient,
/// Subject the subject and Date the date, each missing where its field is
/// empty. The id of the message and those it refers to are told by a full read
/// alone, and no other header is there but the type of the whole.
pub proof fn each_header_has_its_own_field(entry: Json, other: Seq<char>)
    ensures
        ({
            let row = headers_in(listed(entry).at("payload"@));
            &&& row.len() == there(entry, "sender"@) + there(entry, "recipient"@) + there(
                entry,
                "subject"@,
            ) + there(entry, "date"@)
            &&& tell(row, "From"@, text_in(entry, "sender"@))
            &&& tell(row, "To"@, text_in(entry, "recipient"@))
            &&& tell(row, "Subject"@, text_in(entry, "subject"@))
            &&& tell(row, "Date"@, text_in(entry, "date"@))
            &&& other != "From"@ && other != "To"@ && other != "Subject"@ && other != "Date"@
                ==> value_of(row, other) is None
        }),
        ({
            let whole = opened(entry).at("payload"@);
            let full = headers_in(whole);
            &&& full.len() == there(entry, "sender"@) + there(entry, "recipient"@) + there(
                entry,
                "subject"@,
            ) + there(entry, "date"@) + there(entry, "message_id"@) + there(entry, "references"@)
                + 1
            &&& tell(full, "From"@, text_in(entry, "sender"@))
            &&& tell(full, "To"@, text_in(entry, "recipient"@))
            &&& tell(full, "Subject"@, text_in(entry, "subject"@))
            &&& tell(full, "Date"@, text_in(entry, "date"@))
            &&& tell(full, "Message-ID"@, in_brackets(text_in(entry, "message_id"@)))
            &&& tell(full, "References"@, text_in(entry, "references"@))
            &&& whole.at("mimeType"@) is Text
            &&& value_of(full, "Content-Type"@) == Some(
                Json::Text(whole.at("mimeType"@)->Text_0 + "; charset=utf-8"@),
            )
            &&& other != "From"@ && other != "To"@ && other != "Subject"@ && other != "Date"@
                && other != "Message-ID"@ && other != "References"@ && other != "Content-Type"@
                ==> value_of(full, other) is None
        }),
{
    broadcast use member_of_push;

    names_differ();
    header_names_differ();
    let row = envelope(entry, false);
    let short = envelope(entry, true);
    let id = text_in(entry, "message_id"@);
    assert(in_brackets(id).len() > 0 <==> id.len() > 0);
    let kind = top_level(entry).mime_type;
    assert(headers_in(listed(entry).at("payload"@)) == row);
    assert(headers_in(opened(entry).at("payload"@)) == short.push(content_type(kind)));
    assert forall|key: Seq<char>| true implies #[trigger] value_of(
        short.push(content_type(kind)),
        key,
    ) == (match value_of(short, key) {
        Some(found) => Some(found),
        None => if key == "Content-Type"@ {
            Some(Json::Text(kind + "; charset=utf-8"@))
        } else {
            None
        },
    }) by {
        value_of_push(short, "Content-Type"@, kind + "; charset=utf-8"@, key);
    }
    envelope_values(entry, false, "From"@);
    envelope_values(entry, false, "To"@);
    envelope_values(entry, false, "Subject"@);
    envelope_values(entry, false, "Date"@);
    envelope_values(entry, false, "Message-ID"@);
    envelope_values(entry, false, "References"@);
    envelope_values(entry, false, other);
    envelope_values(entry, true, "From"@);
    envelope_values(entry, true, "To"@);
    envelope_values(entry, true, "Subject"@);
    envelope_values(entry, true, "Date"@);
    envelope_values(entry, true, "Message-ID"@);
    envelope_values(entry, true, "References"@);
    envelope_values(entry, true, "Content-Type"@);
    envelope_values(entry, true, other);
}

/// The parts of a part.
pub open spec fn parts_of(part: Json) -> Seq<Json> {
    match part.at("parts"@) {
        Json::List(parts) => parts,
        _ => Seq::empty(),
    }
}

/// Whether a part is a text of a type: it says so, its data is the text, its
/// size is that of the text, and no part is in it.
pub open spec fn is_text(part: Json, mime_type: Seq<char>, text: Seq<char>) -> bool {
    &&& part.at("mimeType"@) == Json::Text(mime_type)
    &&& part.at("body"@).at("data"@) == Json::Text(base64url(bytes_of(text)))
    &&& part.at("body"@).at("size"@) == Json::Integer(bytes_of(text).len() as int)
    &&& parts_of(part).len() == 0
}

/// Whether a part only wraps others: it says so, and has no data.
pub open spec fn wraps(part: Json, mime_type: Seq<char>) -> bool {
    &&& part.at("mimeType"@) == Json::Text(mime_type)
    &&& part.at("body"@).get("data"@) is None
    &&& part.at("body"@).at("size"@) == Json::Integer(0)
}

/// Whether a part says its own type in its headers.
pub open spec fn says_its_type(part: Json) -> bool {
    &&& part.at("mimeType"@) is Text
    &&& headers_in(part).len() == 1
    &&& value_of(headers_in(part), "Content-Type"@) == Some(
        Json::Text(part.at("mimeType"@)->Text_0 + "; charset=utf-8"@),
    )
}

/// Whether a part holds the texts of a message: the HTML one as HTML where it
/// is the only one, both as alternatives where there are both, the plain one
/// first, and the plain one as plain text otherwise.
pub open spec fn holds_texts(part: Json, plain: Seq<char>, html: Seq<char>) -> bool {
    if html.len() > 0 && plain.len() > 0 {
        &&& wraps(part, "multipart/alternative"@)
        &&& parts_of(part).len() == 2
        &&& is_text(parts_of(part)[0], "text/plain"@, plain)
        &&& is_text(parts_of(part)[1], "text/html"@, html)
        &&& says_its_type(parts_of(part)[0])
        &&& says_its_type(parts_of(part)[1])
    } else if html.len() > 0 {
        is_text(part, "text/html"@, html)
    } else {
        is_text(part, "text/plain"@, plain)
    }
}

proof fn a_leaf_is_text(mime_type: Seq<char>, text: Seq<char>)
    ensures
        is_text(text_leaf(mime_type, text), mime_type, text),
        says_its_type(text_leaf(mime_type, text)),
{
    broadcast use member_of_push;

    names_differ();
    let none = Seq::<Json>::empty();
    assert(value_of(none, "Content-Type"@) is None);
    value_of_push(none, "Content-Type"@, mime_type + "; charset=utf-8"@, "Content-Type"@);
}

proof fn parts_are_attachments(items: Seq<Json>, n: int)
    requires
        0 <= n <= items.len(),
    ensures
        attachment_parts(items, n).len() == n,
        forall|i: int|
            0 <= i < n ==> #[trigger] attachment_parts(items, n)[i] == attachment(i, items[i]),
    decreases n,
{
    if n > 0 {
        parts_are_attachments(items, n - 1);
    }
}

/// The texts of an entry: the plain one is `body_plain`, or `body` where that is
/// empty.
pub open spec fn plain_of(entry: Json) -> Seq<char> {
    if text_in(entry, "body_plain"@).len() > 0 {
        text_in(entry, "body_plain"@)
    } else {
        text_in(entry, "body"@)
    }
}

/// The attachments that the service gives with an entry.
pub open spec fn items_of(entry: Json) -> Seq<Json> {
    match entry.get("attachments"@) {
        Some(Json::List(items)) => items,
        _ => Seq::empty(),
    }
}

/// Each text of a message stands under its own type, and its data is that text:
/// in the message itself where it has no attachments, and otherwise in the
/// first part of a wrapper with one more part for each attachment.
pub proof fn each_text_stands_under_its_own_type(entry: Json)
    ensures
        ({
            let whole = opened(entry).at("payload"@);
            let html = text_in(entry, "body_html"@);
            let n = items_of(entry).len();
            &&& n == 0 ==> holds_texts(whole, plain_of(entry), html)
            &&& n > 0 ==> wraps(whole, "multipart/mixed"@) && parts_of(whole).len() == n + 1
                && holds_texts(parts_of(whole)[0], plain_of(entry), html)
        }),
{
    broadcast use member_of_push;

    names_differ();
    let plain = plain_of(entry);
    let html = text_in(entry, "body_html"@);
    assert(plain == plain_text(entry));
    let items = attachments_in(entry);
    a_leaf_is_text("text/plain"@, plain);
    a_leaf_is_text("text/html"@, html);
    parts_are_attachments(items, items.len() as int);
    let whole = opened(entry).at("payload"@);
    if items.len() > 0 {
        assert(parts_of(whole) =~= Seq::empty().push(text_tree(plain, html)) + attachment_parts(
            items,
            items.len() as int,
        ));
    }
}

/// The bytes of an attachment: what its content reads as, where it is base64,
/// and none where it does not; its content itself in any other encoding.
pub open spec fn is_content(item: Json, bytes: Seq<u8>) -> bool {
    let content = text_in(item, "content"@);
    if text_in(item, "encoding"@) == "base64"@ {
        match base64_read(content) {
            Some(read) => bytes == read,
            None => bytes.len() == 0,
        }
    } else {
        bytes == bytes_of(content)
    }
}

/// Whether a text is a number in decimal.
pub open spec fn is_number(s: Seq<char>, n: nat) -> bool {
    &&& s.len() > 0
    &&& forall|i: int| 0 <= i < s.len() ==> '0' <= #[trigger] s[i] <= '9'
    &&& digits_value(s) == n
    &&& s[0] == '0' ==> s.len() == 1
}

proof fn decimals_are_numbers(n: nat)
    ensures
        is_number(decimal(n), n),
    decreases n,
{
    decimal_reads_back(n);
    assert forall|i: int| 0 <= i < decimal(n).len() implies '0' <= #[trigger] decimal(
        n,
    )[i] <= '9' by {
        assert(is_digit(decimal(n)[i]));
    }
    if n >= 10 {
        decimals_are_numbers(n / 10);
        assert(decimal(n)[0] == decimal(n / 10)[0]);
        if decimal(n / 10)[0] == '0' {
            assert(decimal(n / 10).len() == 1);
            let d = decimal(n / 10);
            assert(d.drop_last() =~= Seq::<char>::empty());
            assert(digits_value(d.drop_last()) == 0);
            assert(d.last() == '0');
            assert(digits_value(d) == 0);
        }
    }
}

/// Each attachment of a message has a part of its own, in the order in which
/// the service gives them: with its type, or the type for any bytes where it
/// has none; with its name, which whoever reads the quoted one in its
/// disposition gets back whole; with the size of its bytes; and with its index
/// as the name that it is asked for by.
pub proof fn each_attachment_has_its_part(entry: Json, i: int)
    requires
        0 <= i < items_of(entry).len(),
    ensures
        ({
            let item = items_of(entry)[i];
            let told = parts_of(opened(entry).at("payload"@))[i + 1];
            let kind = text_in(item, "content_type"@);
            let name = text_in(item, "filename"@);
            let head = "attachment; filename=\""@;
            let disposition = value_of(headers_in(told), "Content-Disposition"@);
            &&& told.at("mimeType"@) == Json::Text(
                if kind.len() > 0 {
                    kind
                } else {
                    "application/octet-stream"@
                },
            )
            &&& told.at("filename"@) == Json::Text(name)
            &&& headers_in(told).len() == 1
            &&& disposition matches Some(Json::Text(s)) && s.len() >= head.len() && s.take(
                head.len() as int,
            ) == head && read_quoted(s.skip(head.len() as int)) == Some(
                (name, Seq::<char>::empty()),
            )
            &&& told.at("body"@).at("attachmentId"@) is Text
            &&& is_number(told.at("body"@).at("attachmentId"@)->Text_0, i as nat)
            &&& told.at("partId"@) == told.at("body"@).at("attachmentId"@)
            &&& exists|bytes: Seq<u8>|
                #[trigger] is_content(item, bytes) && told.at("body"@).at("size"@) == Json::Integer(
                    bytes.len() as int,
                )
            &&& told.at("body"@).get("data"@) is None
            &&& parts_of(told).len() == 0
        }),
{
    broadcast use member_of_push;

    names_differ();
    let items = attachments_in(entry);
    let item = items[i];
    parts_are_attachments(items, items.len() as int);
    let whole = opened(entry).at("payload"@);
    let all = Seq::empty().push(text_tree(plain_text(entry), text_in(entry, "body_html"@)))
        + attachment_parts(items, items.len() as int);
    assert(parts_of(whole) == all);
    let told = all[i + 1];
    assert(told == attachment(i, item));
    decimals_are_numbers(i as nat);
    let name = text_in(item, "filename"@);
    let head = "attachment; filename=\""@;
    let s = head + quoted(name) + "\""@;
    let none = Seq::<Json>::empty();
    assert(value_of(none, "Content-Disposition"@) is None);
    value_of_push(none, "Content-Disposition"@, s, "Content-Disposition"@);
    reveal_strlit("\"");
    assert(s.take(head.len() as int) =~= head);
    assert(s.skip(head.len() as int) =~= quoted(name).push('"') + Seq::<char>::empty());
    a_quoted_text_reads_back(name, Seq::empty());
    assert(is_content(item, attached_bytes(item)));
}

/// The bytes that a client is handed for an attachment are those of the
/// attachment: how many they are, and what they are.
pub proof fn an_attachment_holds_its_own_bytes(item: Json)
    ensures
        is_content(item, attached_bytes(item)),
        body_of(attached_bytes(item)).at("size"@) == Json::Integer(
            attached_bytes(item).len() as int,
        ),
        body_of(attached_bytes(item)).at("data"@) == Json::Text(base64url(attached_bytes(item))),
{
    broadcast use member_of_push;

    names_differ();
}

/// Whether a text is the date of a message in milliseconds: of a timestamp, or
/// else of a mail's own date, where it is after the start of 1970 and 64 bits
/// hold it; empty otherwise.
pub open spec fn is_date(text: Seq<char>, date: Seq<char>) -> bool {
    let millis: int = match (rfc3339_millis(date), mail_date_seconds(date)) {
        (Some(v), _) => v as int,
        (None, Some(v)) => 1000 * v,
        (None, None) => 0,
    };
    if 0 < millis <= 0x7fff_ffff_ffff_ffff {
        is_number(text, millis as nat)
    } else {
        text.len() == 0
    }
}

proof fn dates_are_dates(date: Seq<char>)
    ensures
        is_date(dated(date), date),
{
    match (rfc3339_millis(date), mail_date_seconds(date)) {
        (Some(v), _) => {
            if v > 0 {
                decimals_are_numbers(v as nat);
            }
        },
        (None, Some(v)) => {
            if v > 0 {
                decimals_are_numbers((1000 * v) as nat);
            }
        },
        (None, None) => {},
    }
}

/// How many bytes some attachments hold together, from the first one on.
pub open spec fn weighs(items: Seq<Json>, total: nat) -> bool
    decreases items.len(),
{
    if items.len() == 0 {
        total == 0
    } else {
        exists|bytes: Seq<u8>|
            #[trigger] is_content(items[0], bytes) && bytes.len() <= total && weighs(
                items.drop_first(),
                (total - bytes.len()) as nat,
            )
    }
}

proof fn totals_weigh(items: Seq<Json>, n: int)
    requires
        0 <= n <= items.len(),
    ensures
        attached_total(items, n) <= attached_total(items, items.len() as int),
        weighs(
            items.skip(n),
            (attached_total(items, items.len() as int) - attached_total(items, n)) as nat,
        ),
    decreases items.len() - n,
{
    if n < items.len() {
        totals_weigh(items, n + 1);
        let rest = items.skip(n);
        assert(rest.drop_first() =~= items.skip(n + 1));
        assert(rest[0] == items[n]);
        assert(is_content(rest[0], attached_bytes(items[n])));
    }
}

/// The id, the labels, the date and the size of a message are its own: it is in
/// the inbox, and unread unless the service says that it was read; a row of the
/// list tells no size and no snippet, and a message read in full how many bytes
/// its texts and its attachments hold together.
pub proof fn a_message_is_labelled_dated_and_weighed(entry: Json)
    ensures
        ({
            let row = listed(entry);
            let whole = opened(entry);
            let read = entry.get("read"@) == Some(Json::Bool(true));
            let texts = bytes_of(plain_of(entry)).len() + bytes_of(
                text_in(entry, "body_html"@),
            ).len();
            &&& row is Record
            &&& row->Record_0.len() == 7
            &&& whole is Record
            &&& whole->Record_0.len() == 7
            &&& row.at("id"@) == Json::Text(text_in(entry, "id"@))
            &&& row.at("threadId"@) == row.at("id"@)
            &&& row.at("labelIds"@) is List
            &&& row.at("labelIds"@)->List_0.len() == (if read {
                1int
            } else {
                2
            })
            &&& row.at("labelIds"@)->List_0[0] == Json::Text("INBOX"@)
            &&& !read ==> row.at("labelIds"@)->List_0[1] == Json::Text("UNREAD"@)
            &&& row.at("internalDate"@) is Text
            &&& is_date(row.at("internalDate"@)->Text_0, text_in(entry, "date"@))
            &&& row.at("sizeEstimate"@) == Json::Integer(0)
            &&& row.at("snippet"@) == Json::Text(Seq::empty())
            &&& wraps(row.at("payload"@), "text/plain"@)
            &&& parts_of(row.at("payload"@)).len() == 0
            &&& whole.at("id"@) == row.at("id"@)
            &&& whole.at("threadId"@) == row.at("id"@)
            &&& whole.at("labelIds"@) == row.at("labelIds"@)
            &&& whole.at("internalDate"@) == row.at("internalDate"@)
            &&& whole.at("snippet"@) == Json::Text(Seq::empty())
            &&& exists|total: nat|
                #[trigger] weighs(items_of(entry), total) && whole.at("sizeEstimate"@)
                    == Json::Integer(
                    if total + texts <= u64::MAX {
                        (total + texts) as int
                    } else {
                        u64::MAX as int
                    },
                )
        }),
{
    broadcast use member_of_push;

    names_differ();
    dates_are_dates(text_in(entry, "date"@));
    let items = attachments_in(entry);
    totals_weigh(items, 0);
    assert(items.skip(0) =~= items);
    assert(attached_total(items, 0) == 0);
    assert(weighs(items_of(entry), attached_total(items, items.len() as int)));
}

/// A text whose first character is in upper case and whose others are as they
/// were.
pub open spec fn capitalised(s: Seq<char>) -> Seq<char> {
    if s.len() == 0 {
        s
    } else {
        uppercase(s[0]) + s.skip(1)
    }
}

proof fn send_headers(entry: Json, other: Seq<char>)
    ensures
        ({
            let h = send_envelope(entry);
            &&& tell(h, "To"@, text_in(entry, "recipient"@))
            &&& tell(h, "Subject"@, text_in(entry, "subject"@))
            &&& tell(h, "Date"@, date_of_send(entry))
            &&& other != "To"@ && other != "Subject"@ && other != "Date"@ ==> value_of(
                h,
                other,
            ) is None
        }),
{
    header_names_differ();
    let none = Seq::<Json>::empty();
    let h1 = with_header(none, "To"@, text_in(entry, "recipient"@));
    let h2 = with_header(h1, "Subject"@, text_in(entry, "subject"@));
    let date = date_of_send(entry);
    assert forall|key: Seq<char>| true implies #[trigger] value_of(send_envelope(entry), key)
        == value_of(with_header(h2, "Date"@, date), key) by {}
    assert forall|key: Seq<char>| #[trigger] value_of(none, key) is None by {}
    value_with_header(none, "To"@, text_in(entry, "recipient"@), "To"@);
    value_with_header(none, "To"@, text_in(entry, "recipient"@), "Subject"@);
    value_with_header(none, "To"@, text_in(entry, "recipient"@), "Date"@);
    value_with_header(none, "To"@, text_in(entry, "recipient"@), other);
    value_with_header(h1, "Subject"@, text_in(entry, "subject"@), "To"@);
    value_with_header(h1, "Subject"@, text_in(entry, "subject"@), "Subject"@);
    value_with_header(h1, "Subject"@, text_in(entry, "subject"@), "Date"@);
    value_with_header(h1, "Subject"@, text_in(entry, "subject"@), other);
    value_with_header(h2, "Date"@, date, "To"@);
    value_with_header(h2, "Date"@, date, "Subject"@);
    value_with_header(h2, "Date"@, date, "Date"@);
    value_with_header(h2, "Date"@, date, other);
}

/// When a send was: when it was sent, or when it was asked for where it was not.
pub open spec fn date_of_send(entry: Json) -> Seq<char> {
    if text_in(entry, "sent_at"@).len() > 0 {
        text_in(entry, "sent_at"@)
    } else {
        text_in(entry, "created_at"@)
    }
}

/// Whether a resource is the one of a send, whatever its snippet and its body.
pub open spec fn is_of_send(row: Json, entry: Json) -> bool {
    let headers = headers_in(row.at("payload"@));
    &&& row is Record
    &&& row->Record_0.len() == 7
    &&& headers.len() == there(entry, "recipient"@) + there(entry, "subject"@) + (if date_of_send(
        entry,
    ).len() > 0 {
        1int
    } else {
        0
    })
    &&& row.at("id"@) == Json::Text("send-"@ + text_in(entry, "payment_hash"@))
    &&& row.at("threadId"@) == row.at("id"@)
    &&& row.at("labelIds"@) is List
    &&& row.at("labelIds"@)->List_0.len() == 1
    &&& row.at("labelIds"@)->List_0[0] == Json::Text("SENT"@)
    &&& row.at("internalDate"@) is Text
    &&& is_date(row.at("internalDate"@)->Text_0, date_of_send(entry))
    &&& row.at("sizeEstimate"@) == Json::Integer(0)
    &&& row.at("payload"@).at("mimeType"@) == Json::Text("text/plain"@)
    &&& parts_of(row.at("payload"@)).len() == 0
    &&& tell(headers, "To"@, text_in(entry, "recipient"@))
    &&& tell(headers, "Subject"@, text_in(entry, "subject"@))
    &&& tell(headers, "Date"@, date_of_send(entry))
}

/// A send is shown with what the service's log says of it: under its payment
/// hash, as sent, with the recipient, the subject and the date of the log. A row
/// tells how the payment and the delivery stand and has no body; opened, its
/// body says why there is no copy and how both stand; and where this device
/// remembers the send, its body is the one that was remembered.
pub proof fn a_send_is_shown_as_the_log_has_it(entry: Json, cached: Json, other: Seq<char>)
    ensures
        is_of_send(sent(entry), entry),
        is_of_send(sent_opened(entry), entry),
        is_of_send(sent_recalled(entry, cached), entry),
        other != "To"@ && other != "Subject"@ && other != "Date"@ ==> value_of(
            headers_in(sent(entry).at("payload"@)),
            other,
        ) is None,
        sent(entry).at("snippet"@) == Json::Text(
            "Payment "@ + text_in(entry, "payment_status"@) + ", delivery "@ + text_in(
                entry,
                "delivery_status"@,
            ),
        ),
        wraps(sent(entry).at("payload"@), "text/plain"@),
        sent_opened(entry).at("snippet"@) == Json::Text(Seq::empty()),
        sent_recalled(entry, cached).at("snippet"@) == Json::Text(Seq::empty()),
        is_text(
            sent_opened(entry).at("payload"@),
            "text/plain"@,
            "LNemail does not keep a copy of what you sent \u{2014} only this record that it was sent and whether it was delivered.\n\nPayment: "@
                + capitalised(text_in(entry, "payment_status"@)) + "\nDelivery: "@ + capitalised(
                text_in(entry, "delivery_status"@),
            ),
        ),
        is_text(
            sent_recalled(entry, cached).at("payload"@),
            "text/plain"@,
            "Kept on this device only \u{2014} LNemail itself still keeps no copy.\n\n"@ + text_in(
                cached,
                "body"@,
            ),
        ),
{
    broadcast use member_of_push;

    names_differ();
    dates_are_dates(date_of_send(entry));
    send_headers(entry, other);
    let payment = text_in(entry, "payment_status"@);
    let delivery = text_in(entry, "delivery_status"@);
    if payment.len() > 0 {
        assert(payment.skip(1) =~= payment.drop_first());
    } else {
        assert(payment =~= Seq::<char>::empty());
    }
    if delivery.len() > 0 {
        assert(delivery.skip(1) =~= delivery.drop_first());
    } else {
        assert(delivery =~= Seq::<char>::empty());
    }
}

/// Which characters are white space: those of Unicode's White_Space property.
pub proof fn which_characters_are_white_space(c: char)
    ensures
        white_space(c) <==> {
            let n = c as u32;
            9 <= n <= 13 || n == 0x20 || n == 0x85 || n == 0xa0 || n == 0x1680 || 0x2000 <= n
                <= 0x200a || n == 0x2028 || n == 0x2029 || n == 0x202f || n == 0x205f || n == 0x3000
        },
{
}

} // verus!
