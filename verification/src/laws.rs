//! What holds of every call: where its request goes, what authorises it, and
//! how the answers to several calls fit together.
use vstd::prelude::*;
use vstd::string::*;

use crate::call::{
    all_deletable, carries, concluded, deletable, planned, recent, row_of, rows_of, send_named, two_texts,
    Credential, Outcome,
};
use crate::http::{component_ok, path_ok, slashed, Method, ORIGIN};
use crate::json::{member_of_push, Json};
use crate::params::{
    allows, hash_in, is_segment, segment_byte, sent_id, sent_id_names_its_hash, SENT_ID_PREFIX,
};
use crate::resource::{
    attachment, attachment_parts, attachments_in, content_type, envelope, header_pair, opened,
    plain_text, quoted, sent_opened, sent_recalled, text_in, text_leaf, text_tree, top_level,
};
use crate::text::{
    ascii_bytes_are_characters, bytes_of, bytes_of_concat, trimmed, white_space,
};

verus! {

/// A text of a few printable characters of ASCII, without a slash and with no
/// full stop at its head.
spec fn plain_word(s: Seq<char>) -> bool {
    &&& 0 < s.len() <= 128
    &&& forall|i: int| 0 <= i < s.len() ==> ' ' <= #[trigger] s[i] <= '~' && s[i] != '/'
    &&& s[0] != '.'
}

/// A text that may be a component of a path, of no great length.
pub open spec fn one_component(s: Seq<char>) -> bool {
    component_ok(s) && bytes_of(s).len() <= 128
}

proof fn plain_word_is_one_component(s: Seq<char>)
    requires
        plain_word(s),
    ensures
        one_component(s),
{
    reveal_strlit(".");
    reveal_strlit("..");
    vstd::utf8::is_ascii_chars_encode_utf8(s);
    assert forall|i: int| 0 <= i < bytes_of(s).len() implies #[trigger] bytes_of(s)[i] >= 32
        && bytes_of(s)[i] < 127 by {
        assert(' ' <= s[i] <= '~');
    }
    assert(!s.contains('/'));
}

proof fn segment_is_one_component(s: Seq<char>)
    requires
        is_segment(s),
    ensures
        one_component(s),
{
    reveal_strlit(".");
    reveal_strlit("..");
    assert forall|i: int| 0 <= i < bytes_of(s).len() implies #[trigger] bytes_of(s)[i] < 128 by {
        assert(segment_byte(bytes_of(s)[i]));
    }
    ascii_bytes_are_characters(s);
    vstd::utf8::is_ascii_chars_encode_utf8(s);
    assert forall|i: int| 0 <= i < s.len() implies s[i] != '.' && s[i] != '/' by {
        assert(bytes_of(s)[i] == s[i] as u8);
        assert(segment_byte(bytes_of(s)[i]));
    }
}

proof fn slashed_is_short(path: Seq<Seq<char>>, n: int)
    requires
        0 <= n <= path.len(),
        forall|i: int| 0 <= i < path.len() ==> one_component(#[trigger] path[i]),
    ensures
        bytes_of(slashed(path, n)).len() <= 129 * n,
    decreases n,
{
    if n == 0 {
        assert(bytes_of(slashed(path, n)) =~= Seq::<u8>::empty());
    } else {
        assert(one_component(path[n - 1]));
        if n > 1 {
            slashed_is_short(path, n - 1);
            let slash = Seq::empty().push('/');
            vstd::utf8::is_ascii_chars_encode_utf8(slash);
            assert(slashed(path, n - 1).push('/') =~= slashed(path, n - 1) + slash);
            bytes_of_concat(slashed(path, n - 1), slash);
            bytes_of_concat(slashed(path, n - 1).push('/'), path[n - 1]);
        }
    }
}

proof fn short_paths_are_ok(path: Seq<Seq<char>>)
    requires
        1 <= path.len() <= 4,
        forall|i: int| 0 <= i < path.len() ==> one_component(#[trigger] path[i]),
    ensures
        path_ok(path),
{
    slashed_is_short(path, path.len() as int);
    bytes_of_concat(ORIGIN@, slashed(path, path.len() as int));
    reveal_strlit("https://lnemail.net/api/v1/");
    vstd::utf8::is_ascii_chars_encode_utf8(ORIGIN@);
}

proof fn words_are_components()
    ensures
        one_component("email"@),
        one_component("emails"@),
        one_component("payment"@),
        one_component("new-invoice"@),
        one_component("account"@),
        one_component("sends"@),
        one_component("recent"@),
        one_component("send"@),
        one_component("status"@),
        one_component("renew"@),
{
    reveal_strlit("email");
    reveal_strlit("emails");
    reveal_strlit("payment");
    reveal_strlit("new-invoice");
    reveal_strlit("account");
    reveal_strlit("sends");
    reveal_strlit("recent");
    reveal_strlit("send");
    reveal_strlit("status");
    reveal_strlit("renew");
    plain_word_is_one_component("email"@);
    plain_word_is_one_component("emails"@);
    plain_word_is_one_component("payment"@);
    plain_word_is_one_component("new-invoice"@);
    plain_word_is_one_component("account"@);
    plain_word_is_one_component("sends"@);
    plain_word_is_one_component("recent"@);
    plain_word_is_one_component("send"@);
    plain_word_is_one_component("status"@);
    plain_word_is_one_component("renew"@);
}

/// Every request that is planned can be made: its path is one that is accepted
/// below the origin, and no parameter adds a component to it or takes one away.
/// It carries a body where its kind asks for one.
pub proof fn every_plan_can_be_requested(method: Seq<char>, p: Json)
    requires
        planned(method, p) is Ok,
    ensures
        path_ok(planned(method, p)->Ok_0.path),
        forall|i: int|
            0 <= i < planned(method, p)->Ok_0.path.len() ==> one_component(
                #[trigger] planned(method, p)->Ok_0.path[i],
            ),
        carries(planned(method, p)->Ok_0.method, planned(method, p)->Ok_0.body is Some),
{
    words_are_components();
    assert forall|s: Seq<char>| #[trigger] is_segment(s) implies one_component(s) by {
        segment_is_one_component(s);
    }
    short_paths_are_ok(planned(method, p)->Ok_0.path);
}

/// A call is authorised by nobody exactly where it is made before there is an
/// account, and by a token that its caller gives nowhere but where it asks
/// whose the token is. Every other is bound to the account that it names.
pub proof fn who_authorises_a_call(method: Seq<char>, p: Json)
    requires
        planned(method, p) is Ok,
    ensures
        planned(method, p)->Ok_0.bearer is Nobody <==> method == "lnemail.createAccount"@ || method
            == "lnemail.signupInvoice"@ || method == "lnemail.paymentStatus"@,
        planned(method, p)->Ok_0.bearer is Token ==> method == "lnemail.account"@,
        match planned(method, p)->Ok_0.bearer {
            Credential::Nobody => true,
            Credential::Token(s) => p.at("token"@) == Json::Text(s),
            Credential::Account(s) => p.at("accountId"@) == Json::Text(s),
        },
{
    reveal_strlit("lnemail.createAccount");
    reveal_strlit("lnemail.signupInvoice");
    reveal_strlit("lnemail.paymentStatus");
    reveal_strlit("lnemail.account");
    assert("lnemail.createAccount"@[8] == 'c');
    assert("lnemail.signupInvoice"@[8] == 's');
    assert("lnemail.paymentStatus"@[8] == 'p');
}

proof fn deletable_ids(ids: Seq<Json>, n: int)
    requires
        0 <= n,
        all_deletable(ids, n) is Ok,
    ensures
        all_deletable(ids, n)->Ok_0.len() == n,
        forall|i: int|
            0 <= i < n ==> {
                let id = #[trigger] all_deletable(ids, n)->Ok_0[i];
                &&& id == ids[i]
                &&& id is Text
                &&& hash_in(id->Text_0) is None
            },
    decreases n,
{
    if n > 0 {
        deletable_ids(ids, n - 1);
        assert(deletable(ids[n - 1]) is Ok);
    }
}

/// Whether a value is the id of a message, and not of a row in the recent-sends
/// log.
pub open spec fn message_id(id: Json) -> bool {
    id is Text && hash_in(id->Text_0) is None
}

/// Nothing is deleted from the recent-sends log: a request that deletes names
/// messages alone, the one in its path or those in its body, as they were
/// given.
pub proof fn the_send_log_is_read_only(method: Seq<char>, p: Json)
    requires
        planned(method, p) is Ok,
        planned(method, p)->Ok_0.method == Method::Delete,
    ensures
        ({
            let plan = planned(method, p)->Ok_0;
            ||| {
                &&& plan.path == two_texts("emails"@, p.at("id"@)->Text_0)
                &&& message_id(p.at("id"@))
                &&& plan.body is None
            }
            ||| {
                &&& p.at("ids"@) is List
                &&& plan.body is Some
                &&& plan.body->0.at("email_ids"@) == p.at("ids"@)
                &&& forall|i: int|
                    0 <= i < p.at("ids"@)->List_0.len() ==> message_id(
                        #[trigger] p.at("ids"@)->List_0[i],
                    )
            }
        }),
{
    broadcast use member_of_push;

    if p.at("ids"@) is List {
        let ids = p.at("ids"@)->List_0;
        if all_deletable(ids, ids.len() as int) is Ok {
            deletable_ids(ids, ids.len() as int);
            let checked = all_deletable(ids, ids.len() as int)->Ok_0;
            assert forall|i: int| 0 <= i < ids.len() implies message_id(#[trigger] ids[i]) by {
                assert(checked[i] == ids[i]);
            }
            assert(checked =~= ids);
        }
    }
}

proof fn listing_fields()
    ensures
        "ids"@ != "messages"@,
        "ids"@ != "threadIds"@,
        "ids"@ != "nextPageToken"@,
        "ids"@ != "estimate"@,
        "messages"@ != "threadIds"@,
        "messages"@ != "nextPageToken"@,
        "messages"@ != "estimate"@,
        "threadIds"@ != "nextPageToken"@,
        "threadIds"@ != "estimate"@,
        "nextPageToken"@ != "estimate"@,
{
    reveal_strlit("ids");
    reveal_strlit("messages");
    reveal_strlit("threadIds");
    reveal_strlit("nextPageToken");
    reveal_strlit("estimate");
    assert("ids"@.len() == 3 && "nextPageToken"@.len() == 13);
    assert("messages"@[0] == 'm' && "estimate"@[0] == 'e' && "threadIds"@[0] == 't');
}

/// The field of a reply that holds the entries of a listing.
pub open spec fn list_key(sends: bool) -> Seq<char> {
    if sends {
        "sends"@
    } else {
        "emails"@
    }
}

/// What is made of the reply to a listing.
pub open spec fn list_outcome(sends: bool) -> Outcome {
    if sends {
        Outcome::Sends
    } else {
        Outcome::Messages
    }
}

/// A listing is of one piece: there is one row for each entry in the reply, in
/// the same order; its ids are those of its rows; a row is its own thread; and
/// there is no further page.
pub proof fn a_listing_is_of_one_piece(sends: bool, reply: Json)
    requires
        reply.at(list_key(sends)) is List,
    ensures
        ({
            let entries = reply.at(list_key(sends))->List_0;
            let r = concluded(list_outcome(sends), reply);
            &&& r is Ok
            &&& r->Ok_0.at("messages"@) == Json::List(rows_of(sends, entries))
            &&& r->Ok_0.at("ids"@) is List
            &&& r->Ok_0.at("ids"@)->List_0.len() == entries.len()
            &&& forall|i: int|
                0 <= i < entries.len() ==> #[trigger] r->Ok_0.at("ids"@)->List_0[i] == row_of(
                    sends,
                    entries[i],
                ).at("id"@)
            &&& r->Ok_0.at("threadIds"@) == r->Ok_0.at("ids"@)
            &&& r->Ok_0.at("estimate"@) == Json::Integer(entries.len() as int)
            &&& r->Ok_0.at("nextPageToken"@) == Json::Text(""@)
        }),
{
    broadcast use member_of_push;

    listing_fields();
}

proof fn rows_have_their_ids(entry: Json)
    ensures
        row_of(true, entry).at("id"@) == Json::Text(sent_id(text_in(entry, "payment_hash"@))),
        sent_opened(entry).at("id"@) == Json::Text(sent_id(text_in(entry, "payment_hash"@))),
        row_of(false, entry).at("id"@) == Json::Text(text_in(entry, "id"@)),
{
    broadcast use member_of_push;

    resource_fields();
}

proof fn first_with_hash(entries: Seq<Json>, hash: Seq<char>, i: int)
    requires
        0 <= i < entries.len(),
        entries[i].at("payment_hash"@) == Json::Text(hash),
        forall|j: int|
            0 <= j < i ==> (#[trigger] entries[j]).at("payment_hash"@) != Json::Text(hash),
    ensures
        send_named(entries, hash) == Some(entries[i]),
    decreases i,
{
    if i > 0 {
        let rest = entries.drop_first();
        assert(entries[0].at("payment_hash"@) != Json::Text(hash));
        assert(rest[i - 1] == entries[i]);
        assert forall|j: int| 0 <= j < i - 1 implies (#[trigger] rest[j]).at("payment_hash"@)
            != Json::Text(hash) by {
            assert(rest[j] == entries[j + 1]);
        }
        first_with_hash(rest, hash, i - 1);
    }
}

proof fn segment_is_trimmed(hash: Seq<char>)
    requires
        is_segment(sent_id(hash)),
    ensures
        trimmed(hash) == hash,
{
    let id = sent_id(hash);
    assert forall|i: int| 0 <= i < bytes_of(id).len() implies #[trigger] bytes_of(id)[i] < 128 by {
        assert(segment_byte(bytes_of(id)[i]));
    }
    ascii_bytes_are_characters(id);
    vstd::utf8::is_ascii_chars_encode_utf8(id);
    assert forall|i: int| 0 <= i < hash.len() implies !white_space(#[trigger] hash[i]) by {
        let k = SENT_ID_PREFIX@.len() + i;
        assert(id[k] == hash[i]);
        assert(bytes_of(id)[k] == id[k] as u8);
        assert(segment_byte(bytes_of(id)[k]));
    }
}

/// A row of the recent-sends log that was listed is read by its id: reading
/// asks for the log again, finds the entry that the row was made of, and opens
/// it under the same id. It holds of the first entry with its payment hash,
/// where the id is one that can be asked for.
pub proof fn a_listed_send_is_read_by_its_id(
    entries: Seq<Json>,
    i: int,
    hash: Seq<char>,
    reply: Json,
    p: Json,
)
    requires
        0 <= i < entries.len(),
        entries[i].at("payment_hash"@) == Json::Text(hash),
        forall|j: int|
            0 <= j < i ==> (#[trigger] entries[j]).at("payment_hash"@) != Json::Text(hash),
        reply.at("sends"@) == Json::List(entries),
        allows(p, two_texts("accountId"@, "id"@)),
        p.at("accountId"@) is Text,
        p.at("id"@) == row_of(true, entries[i]).at("id"@),
        is_segment(sent_id(hash)),
    ensures
        planned("lnemail.read"@, p) is Ok,
        planned("lnemail.read"@, p)->Ok_0.path == recent(),
        concluded(planned("lnemail.read"@, p)->Ok_0.answer, reply) == Ok::<Json, &'static str>(
            sent_opened(entries[i]),
        ),
        sent_opened(entries[i]).at("id"@) == p.at("id"@),
{
    reveal_strlit("lnemail.createAccount");
    reveal_strlit("lnemail.signupInvoice");
    reveal_strlit("lnemail.paymentStatus");
    reveal_strlit("lnemail.account");
    reveal_strlit("lnemail.list");
    reveal_strlit("lnemail.read");
    assert("lnemail.list"@[8] == 'l' && "lnemail.read"@[8] == 'r');
    segment_is_trimmed(hash);
    rows_have_their_ids(entries[i]);
    sent_id_names_its_hash(hash, hash);
    first_with_hash(entries, hash, i);
}

/// A row of the recent-sends log is never asked for as if it were a message:
/// no request for a message, whatever it does with it, names one by its id.
pub proof fn a_send_is_never_asked_for_as_a_message(method: Seq<char>, p: Json)
    requires
        planned(method, p) is Ok,
        planned(method, p)->Ok_0.path.len() == 2,
        planned(method, p)->Ok_0.path[0] == "emails"@,
    ensures
        hash_in(planned(method, p)->Ok_0.path[1]) is None,
{
    reveal_strlit("emails");
    reveal_strlit("email");
    reveal_strlit("payment");
    reveal_strlit("account");
    assert("emails"@.len() == 6 && "email"@.len() == 5 && "payment"@.len() == 7);
    assert("account"@.len() == 7);
}

/// What a resource holds apart from its snippet and its body, which is all
/// that a listing sorts or matches by.
pub open spec fn same_row(a: Json, b: Json) -> bool {
    &&& a.at("id"@) == b.at("id"@)
    &&& a.at("threadId"@) == b.at("threadId"@)
    &&& a.at("labelIds"@) == b.at("labelIds"@)
    &&& a.at("internalDate"@) == b.at("internalDate"@)
    &&& a.at("sizeEstimate"@) == b.at("sizeEstimate"@)
    &&& a.at("payload"@).at("mimeType"@) == b.at("payload"@).at("mimeType"@)
    &&& a.at("payload"@).at("headers"@) == b.at("payload"@).at("headers"@)
    &&& a.at("payload"@).at("parts"@) == b.at("payload"@).at("parts"@)
}

proof fn resource_fields()
    ensures
        "mimeType"@ != "headers"@,
        "mimeType"@ != "body"@,
        "mimeType"@ != "parts"@,
        "headers"@ != "body"@,
        "headers"@ != "parts"@,
        "body"@ != "parts"@,
        "id"@ != "threadId"@,
        "id"@ != "labelIds"@,
        "id"@ != "internalDate"@,
        "id"@ != "sizeEstimate"@,
        "id"@ != "snippet"@,
        "id"@ != "payload"@,
        "threadId"@ != "labelIds"@,
        "threadId"@ != "internalDate"@,
        "threadId"@ != "sizeEstimate"@,
        "threadId"@ != "snippet"@,
        "threadId"@ != "payload"@,
        "labelIds"@ != "internalDate"@,
        "labelIds"@ != "sizeEstimate"@,
        "labelIds"@ != "snippet"@,
        "labelIds"@ != "payload"@,
        "internalDate"@ != "sizeEstimate"@,
        "internalDate"@ != "snippet"@,
        "internalDate"@ != "payload"@,
        "sizeEstimate"@ != "snippet"@,
        "sizeEstimate"@ != "payload"@,
        "snippet"@ != "payload"@,
{
    reveal_strlit("mimeType");
    reveal_strlit("headers");
    reveal_strlit("body");
    reveal_strlit("parts");
    reveal_strlit("id");
    reveal_strlit("threadId");
    reveal_strlit("labelIds");
    reveal_strlit("internalDate");
    reveal_strlit("sizeEstimate");
    reveal_strlit("snippet");
    reveal_strlit("payload");
    assert("mimeType"@.len() == 8 && "headers"@.len() == 7 && "body"@.len() == 4);
    assert("parts"@.len() == 5 && "id"@.len() == 2);
    assert("threadId"@[0] == 't' && "labelIds"@[0] == 'l' && "snippet"@[0] == 's');
    assert("payload"@[0] == 'p' && "sizeEstimate"@[0] == 's' && "internalDate"@[0] == 'i');
    assert("sizeEstimate"@.len() == 12 && "snippet"@.len() == 7);
}

/// Opening a row of the recent-sends log changes nothing that a listing sorts
/// or matches by, and what this device remembers of the send supplies a body
/// and nothing else.
pub proof fn a_remembered_send_supplies_a_body_alone(entry: Json, cached: Json)
    ensures
        same_row(sent_opened(entry), row_of(true, entry)),
        same_row(sent_recalled(entry, cached), row_of(true, entry)),
        sent_recalled(entry, cached).at("snippet"@) == sent_opened(entry).at("snippet"@),
{
    broadcast use member_of_push;

    resource_fields();
}

/// Whether a part has no header but those of its own content.
pub open spec fn no_envelope(part: Json) -> bool {
    match part.at("headers"@) {
        Json::List(headers) => forall|i: int|
            0 <= i < headers.len() ==> {
                let name = (#[trigger] headers[i]).at("name"@);
                name == Json::Text("Content-Type"@) || name == Json::Text("Content-Disposition"@)
            },
        _ => false,
    }
}

/// The parts of a part.
pub open spec fn parts_in(part: Json) -> Seq<Json> {
    match part.at("parts"@) {
        Json::List(parts) => parts,
        _ => Seq::empty(),
    }
}

/// Whether neither a part nor a part in it has a header but those of its own
/// content, and no part lies deeper.
pub open spec fn bare(part: Json) -> bool {
    &&& no_envelope(part)
    &&& forall|i: int|
        0 <= i < parts_in(part).len() ==> {
            &&& no_envelope(#[trigger] parts_in(part)[i])
            &&& parts_in(parts_in(part)[i]).len() == 0
        }
}

proof fn names_of_headers(name: Seq<char>, value: Seq<char>)
    ensures
        header_pair(name, value).at("name"@) == Json::Text(name),
{
    broadcast use member_of_push;

    reveal_strlit("name");
    reveal_strlit("value");
    assert("name"@.len() == 4 && "value"@.len() == 5);
}

proof fn leaves_are_bare(mime_type: Seq<char>, body: Seq<char>)
    ensures
        no_envelope(text_leaf(mime_type, body)),
        parts_in(text_leaf(mime_type, body)).len() == 0,
{
    broadcast use member_of_push;

    resource_fields();
    names_of_headers("Content-Type"@, mime_type + "; charset=utf-8"@);
}

proof fn attachments_are_bare(items: Seq<Json>, n: int)
    requires
        0 <= n <= items.len(),
    ensures
        attachment_parts(items, n).len() == n,
        forall|i: int| 0 <= i < n ==> bare(#[trigger] attachment_parts(items, n)[i]),
    decreases n,
{
    broadcast use member_of_push;

    if n > 0 {
        attachments_are_bare(items, n - 1);
        resource_fields();
        reveal_strlit("partId");
        reveal_strlit("filename");
        reveal_strlit("headers");
        assert("partId"@[0] == 'p' && "filename"@[0] == 'f' && "headers"@[0] == 'h');
        assert("partId"@.len() == 6 && "filename"@.len() == 8);
        let part = attachment(n - 1, items[n - 1]);
        names_of_headers(
            "Content-Disposition"@,
            "attachment; filename=\""@ + quoted(text_in(items[n - 1], "filename"@)) + "\""@,
        );
        assert(bare(part));
    }
}

/// The envelope names a message once: the top level carries it, and no part
/// below it does.
pub proof fn the_top_level_alone_carries_the_envelope(entry: Json)
    ensures
        ({
            let payload = opened(entry).at("payload"@);
            &&& payload.at("headers"@) == Json::List(
                envelope(entry, true).push(content_type(payload.at("mimeType"@)->Text_0)),
            )
            &&& forall|i: int|
                0 <= i < parts_in(payload).len() ==> bare(#[trigger] parts_in(payload)[i])
        }),
{
    broadcast use member_of_push;

    resource_fields();
    let plain = plain_text(entry);
    let html = text_in(entry, "body_html"@);
    let items = attachments_in(entry);
    leaves_are_bare("text/plain"@, plain);
    leaves_are_bare("text/html"@, html);
    assert(bare(text_leaf("text/plain"@, plain)));
    assert(bare(text_leaf("text/html"@, html)));
    attachments_are_bare(items, items.len() as int);
    let payload = opened(entry).at("payload"@);
    assert(parts_in(payload) == top_level(entry).parts);
    assert forall|i: int| 0 <= i < parts_in(payload).len() implies bare(
        #[trigger] parts_in(payload)[i],
    ) by {
        if items.len() > 0 {
            if i == 0 {
                assert(parts_in(payload)[0] == text_tree(plain, html));
                assert(bare(text_tree(plain, html)));
            } else {
                assert(parts_in(payload)[i] == attachment_parts(items, items.len() as int)[i - 1]);
            }
        }
    }
}

/// An error never holds response data: it is one of two words.
pub proof fn an_error_is_a_fixed_word(answer: Outcome, reply: Json)
    requires
        concluded(answer, reply) is Err,
    ensures
        concluded(answer, reply)->Err_0 == "lnemail_invalid_response" || concluded(
            answer,
            reply,
        )->Err_0 == "lnemail_not_found",
{
}

} // verus!
