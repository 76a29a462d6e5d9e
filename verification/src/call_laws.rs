//! What each call asks of the service and what it refuses, and what is made of
//! the replies: read off the names and values of its parameters.
use vstd::prelude::*;
use vstd::string::*;

use crate::call::{
    account, all_deletable, attachment, concluded, create_account, delete_many, delete_one, list,
    new_invoice, payment_status, planned, read, recent_sends, renewal_invoice, renewal_status, rows_of,
    send, send_named, send_status, signup_invoice, Credential, Intent, Outcome,
    MAX_DELETE_BATCH, MAX_RAW_MESSAGE_DECODED, MAX_RAW_MESSAGE_ENCODED,
};
use crate::codec::{base64url, base64url_read};
use crate::http::Method;
use crate::json::{member_of_push, Json, Record};
use crate::message_laws::{an_attachment_holds_its_own_bytes, is_content, items_of};
use crate::outgoing::{
    address_headers, addresses_in_each, decoded, header_in, mail_parts, tree_of,
};
use crate::outgoing_laws::when_a_message_is_sent;
use crate::param_laws::{
    a_word_is_a_segment, an_index_is_its_digits, fair_text, fair_token, flag_at, is_flag, reads_as,
    text_at, which_tokens_are_taken, word, word_at,
};
use crate::params::{allows, hash_in, segment_of};
use crate::resource::{listed, opened, sent, sent_opened};
use crate::text::{index_named, trimmed};

verus! {

/// Whether the parameters are an object with no field but this one.
pub open spec fn only(p: Json, a: Seq<char>) -> bool {
    p matches Json::Record(fields) && forall|i: int|
        0 <= i < fields.len() ==> (#[trigger] fields[i]).0 == a
}

/// Whether the parameters are an object with no field but these two.
pub open spec fn only_of_two(p: Json, a: Seq<char>, b: Seq<char>) -> bool {
    p matches Json::Record(fields) && forall|i: int|
        0 <= i < fields.len() ==> (#[trigger] fields[i]).0 == a || fields[i].0 == b
}

/// Whether the parameters are an object with no field but these three.
pub open spec fn only_of_three(p: Json, a: Seq<char>, b: Seq<char>, c: Seq<char>) -> bool {
    p matches Json::Record(fields) && forall|i: int|
        0 <= i < fields.len() ==> (#[trigger] fields[i]).0 == a || fields[i].0 == b || fields[i].0
            == c
}

proof fn names_are_allowed(p: Json, a: Seq<char>, b: Seq<char>, c: Seq<char>)
    ensures
        allows(p, Seq::empty().push(a)) == only(p, a),
        allows(p, Seq::empty().push(a).push(b)) == only_of_two(p, a, b),
        allows(p, Seq::empty().push(a).push(b).push(c)) == only_of_three(p, a, b, c),
{
    let one = Seq::<Seq<char>>::empty().push(a);
    let two = one.push(b);
    let three = two.push(c);
    assert forall|s: Seq<char>| #[trigger] one.contains(s) == (s == a) by {
        assert(one[0] == a);
    }
    assert forall|s: Seq<char>| #[trigger] two.contains(s) == (s == a || s == b) by {
        assert(two[0] == a && two[1] == b);
    }
    assert forall|s: Seq<char>| #[trigger] three.contains(s) == (s == a || s == b || s == c) by {
        assert(three[0] == a && three[1] == b && three[2] == c);
    }
    if p is Record {
        let fields = p->Record_0;
        if allows(p, one) {
            assert forall|i: int| 0 <= i < fields.len() implies (#[trigger] fields[i]).0 == a by {
                assert(one.contains(fields[i].0));
            }
        }
        if allows(p, two) {
            assert forall|i: int| 0 <= i < fields.len() implies (#[trigger] fields[i]).0 == a
                || fields[i].0 == b by {
                assert(two.contains(fields[i].0));
            }
        }
        if allows(p, three) {
            assert forall|i: int| 0 <= i < fields.len() implies (#[trigger] fields[i]).0 == a
                || fields[i].0 == b || fields[i].0 == c by {
                assert(three.contains(fields[i].0));
            }
        }
    }
}

/// Which method is planned how.
proof fn methods(p: Json)
    ensures
        planned("lnemail.createAccount"@, p) == create_account(p),
        planned("lnemail.signupInvoice"@, p) == signup_invoice(p),
        planned("lnemail.paymentStatus"@, p) == payment_status(p),
        planned("lnemail.account"@, p) == account(p),
        planned("lnemail.list"@, p) == list(p),
        planned("lnemail.read"@, p) == read(p),
        planned("lnemail.attachment"@, p) == attachment(p),
        planned("lnemail.delete"@, p) == delete_one(p),
        planned("lnemail.deleteMany"@, p) == delete_many(p),
        planned("lnemail.recentSends"@, p) == recent_sends(p),
        planned("lnemail.send"@, p) == send(p),
        planned("lnemail.sendStatus"@, p) == send_status(p),
        planned("lnemail.sendInvoice"@, p) == new_invoice(p, "email"@, "send"@),
        planned("lnemail.renewalInvoice"@, p) == renewal_invoice(p),
        planned("lnemail.renewalStatus"@, p) == renewal_status(p),
        planned("lnemail.renewalReissue"@, p) == new_invoice(p, "account"@, "renew"@),
{
    reveal_strlit("lnemail.createAccount");
    reveal_strlit("lnemail.signupInvoice");
    reveal_strlit("lnemail.paymentStatus");
    reveal_strlit("lnemail.account");
    reveal_strlit("lnemail.list");
    reveal_strlit("lnemail.read");
    reveal_strlit("lnemail.attachment");
    reveal_strlit("lnemail.delete");
    reveal_strlit("lnemail.deleteMany");
    reveal_strlit("lnemail.recentSends");
    reveal_strlit("lnemail.send");
    reveal_strlit("lnemail.sendStatus");
    reveal_strlit("lnemail.sendInvoice");
    reveal_strlit("lnemail.renewalInvoice");
    reveal_strlit("lnemail.renewalStatus");
    reveal_strlit("lnemail.renewalReissue");
    assert("lnemail.createAccount"@[8] == 'c' && "lnemail.createAccount"@.len() == 21);
    assert("lnemail.signupInvoice"@[8] == 's' && "lnemail.signupInvoice"@.len() == 21);
    assert("lnemail.paymentStatus"@[8] == 'p' && "lnemail.paymentStatus"@.len() == 21);
    assert("lnemail.account"@[8] == 'a' && "lnemail.account"@.len() == 15);
    assert("lnemail.list"@[8] == 'l' && "lnemail.list"@.len() == 12);
    assert("lnemail.read"@[8] == 'r' && "lnemail.read"@.len() == 12);
    assert("lnemail.attachment"@[8] == 'a' && "lnemail.attachment"@.len() == 18);
    assert("lnemail.delete"@[8] == 'd' && "lnemail.delete"@.len() == 14);
    assert("lnemail.deleteMany"@[8] == 'd' && "lnemail.deleteMany"@.len() == 18);
    assert("lnemail.recentSends"@[8] == 'r' && "lnemail.recentSends"@.len() == 19);
    assert("lnemail.send"@[8] == 's' && "lnemail.send"@.len() == 12);
    assert("lnemail.sendStatus"@[8] == 's' && "lnemail.sendStatus"@.len() == 18);
    assert("lnemail.sendInvoice"@[8] == 's' && "lnemail.sendInvoice"@.len() == 19);
    assert("lnemail.renewalInvoice"@[15] == 'I' && "lnemail.renewalInvoice"@.len() == 22);
    assert("lnemail.renewalStatus"@[8] == 'r' && "lnemail.renewalStatus"@.len() == 21);
    assert("lnemail.renewalReissue"@[15] == 'R' && "lnemail.renewalReissue"@.len() == 22);
}

/// A call of any other name is refused as unknown, and no call of a known name
/// is.
pub proof fn which_calls_are_known(method: Seq<char>, p: Json)
    ensures
        planned(method, p) == Err::<Intent, &'static str>("unknown_method") <==> !(method
            == "lnemail.createAccount"@ || method == "lnemail.signupInvoice"@ || method
            == "lnemail.paymentStatus"@ || method == "lnemail.account"@ || method
            == "lnemail.list"@ || method == "lnemail.read"@ || method == "lnemail.attachment"@
            || method == "lnemail.delete"@ || method == "lnemail.deleteMany"@ || method
            == "lnemail.recentSends"@ || method == "lnemail.send"@ || method
            == "lnemail.sendStatus"@ || method == "lnemail.sendInvoice"@ || method
            == "lnemail.renewalInvoice"@ || method == "lnemail.renewalStatus"@ || method
            == "lnemail.renewalReissue"@),
{
    methods(p);
    reveal_strlit("unknown_method");
    reveal_strlit("invalid_params");
    reveal_strlit("lnemail_not_found");
    reveal_strlit("lnemail_sent_log_readonly");
    reveal_strlit("lnemail_recipient_required");
    reveal_strlit("lnemail_single_recipient_only");
    assert("unknown_method"@[0] == 'u');
    assert("invalid_params"@[0] == 'i');
    assert("lnemail_not_found"@[0] == 'l');
    assert("lnemail_sent_log_readonly"@[0] == 'l');
    assert("lnemail_recipient_required"@[0] == 'l');
    assert("lnemail_single_recipient_only"@[0] == 'l');
    if p.at("ids"@) is List {
        deletions_fail_with_two_words(p.at("ids"@)->List_0, p.at("ids"@)->List_0.len() as int);
    }
    if base64url_read(the(p, "raw"@)) is Some {
        let raw = base64url_read(the(p, "raw"@))->0;
        if mail_parts(raw) is Some {
            when_a_message_is_sent(
                addresses_in_each(address_headers(raw)),
                header_in(raw, "Subject"@),
                header_in(raw, "In-Reply-To"@),
                header_in(raw, "References"@),
                tree_of(mail_parts(raw)->0),
            );
        }
    }
}

proof fn deletions_fail_with_two_words(ids: Seq<Json>, n: int)
    ensures
        all_deletable(ids, n) is Err ==> all_deletable(ids, n)->Err_0 == "invalid_params"
            || all_deletable(ids, n)->Err_0 == "lnemail_sent_log_readonly",
    decreases n,
{
    if n > 0 {
        deletions_fail_with_two_words(ids, n - 1);
    }
}

/// What a call is planned as: exactly where its parameters are fair, and then
/// with this request; every other is refused as having bad parameters.
pub open spec fn asks(
    r: Result<Intent, &'static str>,
    fair: bool,
    bearer: Credential,
    method: Method,
    path: Seq<Seq<char>>,
    answer: Outcome,
) -> bool {
    if fair {
        &&& r is Ok
        &&& r->Ok_0.bearer == bearer
        &&& r->Ok_0.method == method
        &&& r->Ok_0.path == path
        &&& r->Ok_0.answer == answer
    } else {
        r == Err::<Intent, &'static str>("invalid_params")
    }
}

/// Whether a call names its account.
pub open spec fn names_account(p: Json) -> bool {
    p.get("accountId"@) matches Some(Json::Text(s))
}

/// The account that a call names.
pub open spec fn the_account(p: Json) -> Credential {
    Credential::Account(p.at("accountId"@)->Text_0)
}

/// The text of a parameter.
pub open spec fn the(p: Json, key: Seq<char>) -> Seq<char> {
    p.at(key)->Text_0
}

/// Whether a body is an object with one field, and what is in it.
pub open spec fn one_field(body: Option<Json>, name: Seq<char>, value: Json) -> bool {
    body matches Some(Json::Record(fields)) && fields.len() == 1 && fields[0] == (name, value)
}

/// Whether a body excludes the provider that a call names, or none where it
/// names none.
pub open spec fn excludes(p: Json, body: Option<Json>) -> bool {
    one_field(
        body,
        "exclude_provider"@,
        if text_at(p, "excludeProvider"@).len() > 0 {
            Json::Text(text_at(p, "excludeProvider"@))
        } else {
            Json::Null
        },
    )
}

proof fn words(p: Json, key: Seq<char>)
    ensures
        segment_of(p, key) == (if word_at(p, key) {
            Ok::<Seq<char>, &'static str>(the(p, key))
        } else {
            Err("invalid_params")
        }),
{
    if p.at(key) is Text {
        a_word_is_a_segment(p.at(key)->Text_0);
    }
}

/// How a mailbox is made and paid for: no token is asked for, and the three
/// calls ask for a mailbox, for another invoice, and whether it was paid.
pub proof fn how_a_mailbox_is_made(p: Json)
    ensures
        ({
            let r = planned("lnemail.createAccount"@, p);
            let fair = only_of_two(p, "includeEmail"@, "includeToken"@) && is_flag(
                p,
                "includeEmail"@,
            ) && is_flag(p, "includeToken"@);
            &&& asks(
                r,
                fair,
                Credential::Nobody,
                Method::Post,
                Seq::empty().push("email"@),
                Outcome::Whole,
            )
            &&& fair ==> {
                &&& r->Ok_0.body matches Some(Json::Record(fields)) && fields.len() == 2
                &&& r->Ok_0.body->0.at("include_email"@) == Json::Bool(flag_at(p, "includeEmail"@))
                &&& r->Ok_0.body->0.at("include_token"@) == Json::Bool(flag_at(p, "includeToken"@))
            }
        }),
        ({
            let r = planned("lnemail.signupInvoice"@, p);
            let fair = only_of_two(p, "paymentHash"@, "excludeProvider"@) && word_at(
                p,
                "paymentHash"@,
            ) && fair_text(p, "excludeProvider"@, 256);
            &&& asks(
                r,
                fair,
                Credential::Nobody,
                Method::Post,
                Seq::empty().push("email"@).push(the(p, "paymentHash"@)).push("new-invoice"@),
                Outcome::Whole,
            )
            &&& fair ==> excludes(p, r->Ok_0.body)
        }),
        ({
            let r = planned("lnemail.paymentStatus"@, p);
            let fair = only(p, "paymentHash"@) && word_at(p, "paymentHash"@);
            &&& asks(
                r,
                fair,
                Credential::Nobody,
                Method::Get,
                Seq::empty().push("payment"@).push(the(p, "paymentHash"@)),
                Outcome::Whole,
            )
            &&& fair ==> r->Ok_0.body is None
        }),
{
    broadcast use member_of_push;

    methods(p);
    names_are_allowed(p, "includeEmail"@, "includeToken"@, "includeToken"@);
    names_are_allowed(p, "paymentHash"@, "excludeProvider"@, "excludeProvider"@);
    words(p, "paymentHash"@);
    reveal_strlit("include_email");
    reveal_strlit("include_token");
    assert("include_email"@[8] == 'e' && "include_token"@[8] == 't');
}

/// How an account is asked about: with the token that the caller gives, where
/// it gives a fair one, and else with that of the account it names.
pub proof fn how_an_account_is_asked_about(p: Json)
    ensures
        ({
            let r = planned("lnemail.account"@, p);
            let gives = p.at("token"@) != Json::Null;
            let fair = only_of_two(p, "accountId"@, "token"@) && (if gives {
                fair_token(p.at("token"@))
            } else {
                names_account(p)
            });
            &&& asks(
                r,
                fair,
                if gives {
                    Credential::Token(the(p, "token"@))
                } else {
                    the_account(p)
                },
                Method::Get,
                Seq::empty().push("account"@),
                Outcome::Whole,
            )
            &&& fair ==> r->Ok_0.body is None
        }),
{
    methods(p);
    names_are_allowed(p, "accountId"@, "token"@, "token"@);
    which_tokens_are_taken(p);
}

/// How mail is listed: the recent-sends log where the query, without the white
/// space around it, is `sent`, and the message list for any other.
pub proof fn how_mail_is_listed(p: Json)
    ensures
        ({
            let r = planned("lnemail.list"@, p);
            let fair = only_of_two(p, "accountId"@, "query"@) && fair_text(p, "query"@, 64)
                && names_account(p);
            let sends = trimmed(text_at(p, "query"@)) == "sent"@;
            &&& asks(
                r,
                fair,
                the_account(p),
                Method::Get,
                if sends {
                    Seq::empty().push("email"@).push("sends"@).push("recent"@)
                } else {
                    Seq::empty().push("emails"@)
                },
                if sends {
                    Outcome::Sends
                } else {
                    Outcome::Messages
                },
            )
            &&& fair ==> r->Ok_0.body is None
        }),
{
    methods(p);
    names_are_allowed(p, "accountId"@, "query"@, "query"@);
}

/// Whether an id is that of a row in the recent-sends log.
pub open spec fn of_the_log(id: Seq<char>) -> bool {
    id.len() >= 5 && id.take(5) == "send-"@
}

proof fn log_ids(id: Seq<char>)
    ensures
        hash_in(id) == (if of_the_log(id) {
            Some(id.skip(5))
        } else {
            None
        }),
{
    reveal_strlit("send-");
    assert("send-"@.len() == 5);
    if id.len() >= 5 {
        assert(id.subrange(0, 5) == id.take(5));
    }
}

/// How a message is read: by its id, or, where the id is that of a row in the
/// recent-sends log, out of the log by the payment hash in it.
pub proof fn how_a_message_is_read(p: Json)
    ensures
        ({
            let r = planned("lnemail.read"@, p);
            let id = the(p, "id"@);
            let fair = only_of_two(p, "accountId"@, "id"@) && word_at(p, "id"@) && names_account(p);
            &&& asks(
                r,
                fair,
                the_account(p),
                Method::Get,
                if of_the_log(id) {
                    Seq::empty().push("email"@).push("sends"@).push("recent"@)
                } else {
                    Seq::empty().push("emails"@).push(id)
                },
                if of_the_log(id) {
                    Outcome::Send(id.skip(5))
                } else {
                    Outcome::Message
                },
            )
            &&& fair ==> r->Ok_0.body is None
        }),
{
    methods(p);
    names_are_allowed(p, "accountId"@, "id"@, "id"@);
    words(p, "id"@);
    log_ids(the(p, "id"@));
}

/// How an attachment is asked for: by the id of its message and by its index,
/// written in digits. A row in the recent-sends log has none.
pub proof fn how_an_attachment_is_asked_for(p: Json, index: usize)
    ensures
        ({
            let r = planned("lnemail.attachment"@, p);
            let id = the(p, "id"@);
            let named = only_of_three(p, "accountId"@, "id"@, "attachmentId"@) && word_at(
                p,
                "id"@,
            );
            &&& named && of_the_log(id) ==> r == Err::<Intent, &'static str>("lnemail_not_found")
            &&& !named ==> r == Err::<Intent, &'static str>("invalid_params")
            &&& named && !of_the_log(id) ==> {
                &&& r is Ok <==> names_account(p) && p.at("attachmentId"@) is Text && exists|n: nat|
                    n <= usize::MAX && #[trigger] reads_as(the(p, "attachmentId"@), n)
                &&& r is Err ==> r == Err::<Intent, &'static str>("invalid_params")
                &&& r is Ok && reads_as(the(p, "attachmentId"@), index as nat) ==> {
                    &&& r->Ok_0.bearer == the_account(p)
                    &&& r->Ok_0.method == Method::Get
                    &&& r->Ok_0.path == Seq::empty().push("emails"@).push(id)
                    &&& r->Ok_0.body is None
                    &&& r->Ok_0.answer == Outcome::Attachment(index)
                }
            }
        }),
{
    methods(p);
    names_are_allowed(p, "accountId"@, "id"@, "attachmentId"@);
    words(p, "id"@);
    log_ids(the(p, "id"@));
    if p.at("attachmentId"@) is Text {
        let s = the(p, "attachmentId"@);
        an_index_is_its_digits(s, index as nat);
        if index_named(s) is Some {
            an_index_is_its_digits(s, index_named(s)->0 as nat);
            assert(reads_as(s, index_named(s)->0 as nat));
        }
        if exists|n: nat| n <= usize::MAX && #[trigger] reads_as(s, n) {
            let n = choose|n: nat| n <= usize::MAX && #[trigger] reads_as(s, n);
            an_index_is_its_digits(s, n);
        }
    }
}

/// How a message is deleted: by its id, and never a row in the recent-sends
/// log, which is refused as read-only.
pub proof fn how_a_message_is_deleted(p: Json)
    ensures
        ({
            let r = planned("lnemail.delete"@, p);
            let id = the(p, "id"@);
            let named = only_of_two(p, "accountId"@, "id"@) && word_at(p, "id"@);
            &&& named && of_the_log(id) ==> r == Err::<Intent, &'static str>(
                "lnemail_sent_log_readonly",
            )
            &&& !(named && of_the_log(id)) ==> asks(
                r,
                named && names_account(p),
                the_account(p),
                Method::Delete,
                Seq::empty().push("emails"@).push(id),
                Outcome::Whole,
            ) && (r is Ok ==> r->Ok_0.body is None)
        }),
{
    methods(p);
    names_are_allowed(p, "accountId"@, "id"@, "id"@);
    words(p, "id"@);
    log_ids(the(p, "id"@));
}

/// Whether a value is the id of a message that may be deleted.
pub open spec fn may_go(id: Json) -> bool {
    id matches Json::Text(s) && word(s) && !of_the_log(s)
}

proof fn ids_go(ids: Seq<Json>, n: int)
    requires
        0 <= n <= ids.len(),
    ensures
        all_deletable(ids, n) is Ok <==> forall|i: int| 0 <= i < n ==> may_go(#[trigger] ids[i]),
        all_deletable(ids, n) is Ok ==> all_deletable(ids, n)->Ok_0 == ids.take(n),
        forall|i: int|
            0 <= i < n && !may_go(ids[i]) && (forall|j: int| 0 <= j < i ==> may_go(ids[j]))
                ==> #[trigger] fails_as(ids[i]) == all_deletable(ids, n)->Err_0,
    decreases n,
{
    if n > 0 {
        ids_go(ids, n - 1);
        if ids[n - 1] is Text {
            a_word_is_a_segment(ids[n - 1]->Text_0);
            log_ids(ids[n - 1]->Text_0);
        }
        if all_deletable(ids, n) is Ok {
            assert(ids.take(n) =~= ids.take(n - 1).push(ids[n - 1]));
        }
        assert forall|i: int|
            0 <= i < n && !may_go(ids[i]) && (forall|j: int|
                0 <= j < i ==> may_go(ids[j])) implies #[trigger] fails_as(ids[i])
            == all_deletable(ids, n)->Err_0 by {
            if i < n - 1 {
                assert(all_deletable(ids, n - 1) is Err);
            } else {
                assert(all_deletable(ids, n - 1) is Ok);
            }
        }
    } else {
        assert(ids.take(0) =~= Seq::<Json>::empty());
    }
}

/// The word that an id which may not be deleted is refused with.
pub open spec fn fails_as(id: Json) -> &'static str {
    if id matches Json::Text(s) && word(s) && of_the_log(s) {
        "lnemail_sent_log_readonly"
    } else {
        "invalid_params"
    }
}

/// How several messages are deleted: one to five hundred in one request, with
/// all of their ids in its body as they were given. The first id that may not
/// be deleted decides how the call is refused.
pub proof fn how_messages_are_deleted(p: Json, i: int)
    ensures
        ({
            let r = planned("lnemail.deleteMany"@, p);
            let named = only_of_two(p, "accountId"@, "ids"@) && p.at("ids"@) is List && 1 <= p.at(
                "ids"@,
            )->List_0.len() <= 500;
            let ids = p.at("ids"@)->List_0;
            let all = forall|k: int| 0 <= k < ids.len() ==> may_go(#[trigger] ids[k]);
            &&& named && 0 <= i < ids.len() && !may_go(ids[i]) && (forall|j: int|
                0 <= j < i ==> may_go(ids[j])) ==> r == Err::<Intent, &'static str>(
                fails_as(ids[i]),
            )
            &&& !named || all ==> asks(
                r,
                named && all && names_account(p),
                the_account(p),
                Method::Delete,
                Seq::empty().push("emails"@),
                Outcome::Whole,
            ) && (r is Ok ==> one_field(r->Ok_0.body, "email_ids"@, p.at("ids"@)))
        }),
{
    methods(p);
    names_are_allowed(p, "accountId"@, "ids"@, "ids"@);
    if p.at("ids"@) is List {
        let ids = p.at("ids"@)->List_0;
        ids_go(ids, ids.len() as int);
        assert(ids.take(ids.len() as int) =~= ids);
        if 0 <= i < ids.len() && !may_go(ids[i]) && (forall|j: int| 0 <= j < i ==> may_go(ids[j])) {
            assert(fails_as(ids[i]) == all_deletable(ids, ids.len() as int)->Err_0);
        }
    }
}

/// How a message is sent: its bytes, at most 32 MiB, come as URL-safe base64,
/// and what they are taken apart into is the body; where they cannot be, the
/// call fails as the taking apart did.
pub proof fn how_a_message_is_sent(p: Json)
    ensures
        ({
            let r = planned("lnemail.send"@, p);
            let named = only_of_two(p, "accountId"@, "raw"@) && fair_text(p, "raw"@, 44739246)
                && p.at("raw"@) is Text;
            let read = base64url_read(the(p, "raw"@));
            let whole = read is Some && read->0.len() <= 33554432;
            &&& !(named && whole) ==> r == Err::<Intent, &'static str>("invalid_params")
            &&& named && whole && decoded(read->0) is Err ==> r == Err::<Intent, &'static str>(
                decoded(read->0)->Err_0,
            )
            &&& named && whole && decoded(read->0) is Ok ==> asks(
                r,
                names_account(p),
                the_account(p),
                Method::Post,
                Seq::empty().push("email"@).push("send"@),
                Outcome::Whole,
            ) && (r is Ok ==> r->Ok_0.body == Some(decoded(read->0)->Ok_0))
        }),
{
    methods(p);
    names_are_allowed(p, "accountId"@, "raw"@, "raw"@);
    the_limits_of_a_call();
}

/// What the limits on a call are.
pub proof fn the_limits_of_a_call()
    ensures
        MAX_DELETE_BATCH == 500,
        MAX_RAW_MESSAGE_DECODED == 32 * 1024 * 1024,
        MAX_RAW_MESSAGE_ENCODED == 44739246,
{
}

/// How a send is followed: as the log of sends as it is, by its status, and by
/// another invoice for it.
pub proof fn how_a_send_is_followed(p: Json)
    ensures
        ({
            let r = planned("lnemail.recentSends"@, p);
            let fair = only(p, "accountId"@) && names_account(p);
            &&& asks(
                r,
                fair,
                the_account(p),
                Method::Get,
                Seq::empty().push("email"@).push("sends"@).push("recent"@),
                Outcome::Whole,
            )
            &&& fair ==> r->Ok_0.body is None
        }),
        ({
            let r = planned("lnemail.sendStatus"@, p);
            let fair = only_of_two(p, "accountId"@, "paymentHash"@) && word_at(p, "paymentHash"@)
                && names_account(p);
            &&& asks(
                r,
                fair,
                the_account(p),
                Method::Get,
                Seq::empty().push("email"@).push("send"@).push("status"@).push(
                    the(p, "paymentHash"@),
                ),
                Outcome::Whole,
            )
            &&& fair ==> r->Ok_0.body is None
        }),
        ({
            let r = planned("lnemail.sendInvoice"@, p);
            let fair = only_of_three(p, "accountId"@, "paymentHash"@, "excludeProvider"@)
                && word_at(p, "paymentHash"@) && fair_text(p, "excludeProvider"@, 256)
                && names_account(p);
            &&& asks(
                r,
                fair,
                the_account(p),
                Method::Post,
                Seq::empty().push("email"@).push("send"@).push(the(p, "paymentHash"@)).push(
                    "new-invoice"@,
                ),
                Outcome::Whole,
            )
            &&& fair ==> excludes(p, r->Ok_0.body)
        }),
{
    methods(p);
    names_are_allowed(p, "accountId"@, "paymentHash"@, "excludeProvider"@);
    words(p, "paymentHash"@);
}

/// How an account is renewed: for one to ten years, or for as many as the
/// service takes by itself where the call names none; then by its status, and by
/// another invoice for it.
pub proof fn how_an_account_is_renewed(p: Json)
    ensures
        ({
            let r = planned("lnemail.renewalInvoice"@, p);
            let years = p.at("years"@);
            let fair = only_of_two(p, "accountId"@, "years"@) && (years == Json::Null || (
            years matches Json::Integer(n) && 1 <= n <= 10)) && names_account(p);
            &&& asks(
                r,
                fair,
                the_account(p),
                Method::Post,
                Seq::empty().push("account"@).push("renew"@),
                Outcome::Whole,
            )
            &&& fair && years != Json::Null ==> one_field(r->Ok_0.body, "years"@, years)
            &&& fair && years == Json::Null ==> r->Ok_0.body == Some(Json::Record(Seq::empty()))
        }),
        ({
            let r = planned("lnemail.renewalStatus"@, p);
            let fair = only_of_two(p, "accountId"@, "paymentHash"@) && word_at(p, "paymentHash"@)
                && names_account(p);
            &&& asks(
                r,
                fair,
                the_account(p),
                Method::Get,
                Seq::empty().push("account"@).push("renew"@).push("status"@).push(
                    the(p, "paymentHash"@),
                ),
                Outcome::Whole,
            )
            &&& fair ==> r->Ok_0.body is None
        }),
        ({
            let r = planned("lnemail.renewalReissue"@, p);
            let fair = only_of_three(p, "accountId"@, "paymentHash"@, "excludeProvider"@)
                && word_at(p, "paymentHash"@) && fair_text(p, "excludeProvider"@, 256)
                && names_account(p);
            &&& asks(
                r,
                fair,
                the_account(p),
                Method::Post,
                Seq::empty().push("account"@).push("renew"@).push(the(p, "paymentHash"@)).push(
                    "new-invoice"@,
                ),
                Outcome::Whole,
            )
            &&& fair ==> excludes(p, r->Ok_0.body)
        }),
{
    methods(p);
    names_are_allowed(p, "accountId"@, "years"@, "years"@);
    names_are_allowed(p, "accountId"@, "paymentHash"@, "excludeProvider"@);
    words(p, "paymentHash"@);
}

/// Whether an entry is the first of the log with a payment hash.
pub open spec fn first_of_hash(entries: Seq<Json>, hash: Seq<char>, i: int) -> bool {
    &&& 0 <= i < entries.len()
    &&& entries[i].at("payment_hash"@) == Json::Text(hash)
    &&& forall|j: int|
        0 <= j < i ==> (#[trigger] entries[j]).at("payment_hash"@) != Json::Text(hash)
}

proof fn send_is_first(entries: Seq<Json>, hash: Seq<char>)
    ensures
        match send_named(entries, hash) {
            Some(entry) => exists|i: int|
                #[trigger] first_of_hash(entries, hash, i) && entries[i] == entry,
            None => forall|i: int|
                0 <= i < entries.len() ==> (#[trigger] entries[i]).at("payment_hash"@)
                    != Json::Text(hash),
        },
    decreases entries.len(),
{
    if entries.len() > 0 {
        let rest = entries.drop_first();
        if entries[0].at("payment_hash"@) == Json::Text(hash) {
            assert(first_of_hash(entries, hash, 0));
        } else {
            send_is_first(rest, hash);
            match send_named(rest, hash) {
                Some(entry) => {
                    let i = choose|i: int|
                        #[trigger] first_of_hash(rest, hash, i) && rest[i] == entry;
                    assert forall|j: int| 0 <= j < i + 1 implies (#[trigger] entries[j]).at(
                        "payment_hash"@,
                    ) != Json::Text(hash) by {
                        if j > 0 {
                            assert(rest[j - 1].at("payment_hash"@) != Json::Text(hash));
                        }
                    }
                    assert(entries[i + 1] == rest[i]);
                    assert(first_of_hash(entries, hash, i + 1));
                },
                None => {
                    assert forall|j: int| 0 <= j < entries.len() implies (#[trigger] entries[j]).at(
                        "payment_hash"@,
                    ) != Json::Text(hash) by {
                        if j > 0 {
                            assert(rest[j - 1].at("payment_hash"@) != Json::Text(hash));
                        }
                    }
                },
            }
        }
    }
}

proof fn reply_words_differ()
    ensures
        "lnemail_invalid_response" != "lnemail_not_found",
        "ids"@ != "messages"@,
        "ids"@ != "threadIds"@,
        "ids"@ != "nextPageToken"@,
        "ids"@ != "estimate"@,
        "messages"@ != "threadIds"@,
        "messages"@ != "nextPageToken"@,
        "messages"@ != "estimate"@,
        "threadIds"@ != "nextPageToken"@,
        "threadIds"@ != "estimate"@,
        "nextPageToken"@ != "estimate"@,
{
    reveal_strlit("lnemail_invalid_response");
    reveal_strlit("lnemail_not_found");
    assert("lnemail_invalid_response"@.len() != "lnemail_not_found"@.len());
    reveal_strlit("ids");
    reveal_strlit("messages");
    reveal_strlit("threadIds");
    reveal_strlit("nextPageToken");
    reveal_strlit("estimate");
    assert("ids"@.len() == 3 && "nextPageToken"@.len() == 13);
    assert("messages"@[0] == 'm' && "estimate"@[0] == 'e' && "threadIds"@[0] == 't');
}

/// Whether an answer lists rows: each with its own id, as its own thread, with
/// no further page.
pub open spec fn lists_rows(answer: Json, rows: Seq<Json>) -> bool {
    &&& answer.at("messages"@) == Json::List(rows)
    &&& answer.at("ids"@) is List
    &&& answer.at("ids"@)->List_0.len() == rows.len()
    &&& forall|i: int|
        0 <= i < rows.len() ==> #[trigger] answer.at("ids"@)->List_0[i] == rows[i].at("id"@)
    &&& answer.at("threadIds"@) == answer.at("ids"@)
    &&& answer.at("nextPageToken"@) == Json::Text(Seq::empty())
    &&& answer.at("estimate"@) == Json::Integer(rows.len() as int)
}

/// What is made of a reply: the reply itself; a row for each entry in its list,
/// in order; the one entry of the log with a payment hash, opened; the message
/// in it, opened; or the bytes of the attachment with an index. A reply without
/// the list that it should have is refused as invalid, and what is not in it as
/// not found.
pub proof fn what_is_made_of_a_reply(reply: Json, hash: Seq<char>, index: usize, k: int)
    ensures
        concluded(Outcome::Whole, reply) == Ok::<Json, &'static str>(reply),
        concluded(Outcome::Message, reply) == Ok::<Json, &'static str>(opened(reply)),
        match reply.get("sends"@) {
            Some(Json::List(entries)) => {
                let r = concluded(Outcome::Sends, reply);
                let one = concluded(Outcome::Send(hash), reply);
                &&& r is Ok
                &&& lists_rows(r->Ok_0, Seq::new(entries.len(), |i: int| sent(entries[i])))
                &&& first_of_hash(entries, hash, k) ==> one == Ok::<Json, &'static str>(
                    sent_opened(entries[k]),
                )
                &&& (forall|i: int| !#[trigger] first_of_hash(entries, hash, i)) ==> one == Err::<
                    Json,
                    &'static str,
                >("lnemail_not_found")
            },
            _ => concluded(Outcome::Sends, reply) == Err::<Json, &'static str>(
                "lnemail_invalid_response",
            ) && concluded(Outcome::Send(hash), reply) == Err::<Json, &'static str>(
                "lnemail_invalid_response",
            ),
        },
        match reply.get("emails"@) {
            Some(Json::List(entries)) => {
                let r = concluded(Outcome::Messages, reply);
                &&& r is Ok
                &&& lists_rows(r->Ok_0, Seq::new(entries.len(), |i: int| listed(entries[i])))
            },
            _ => concluded(Outcome::Messages, reply) == Err::<Json, &'static str>(
                "lnemail_invalid_response",
            ),
        },
        ({
            let r = concluded(Outcome::Attachment(index), reply);
            let items = items_of(reply);
            &&& index >= items.len() ==> r == Err::<Json, &'static str>("lnemail_not_found")
            &&& index < items.len() ==> r is Ok && exists|bytes: Seq<u8>|
                #[trigger] is_content(items[index as int], bytes) && r->Ok_0.at("data"@)
                    == Json::Text(base64url(bytes)) && r->Ok_0.at("size"@) == Json::Integer(
                    bytes.len() as int,
                )
        }),
{
    broadcast use member_of_push;

    reply_words_differ();
    reveal_strlit("");
    assert(""@ =~= Seq::<char>::empty());
    if let Some(Json::List(entries)) = reply.get("sends"@) {
        send_is_first(entries, hash);
        let rows = Seq::new(entries.len(), |i: int| sent(entries[i]));
        assert(rows_of(true, entries) =~= rows);
        if first_of_hash(entries, hash, k) {
            match send_named(entries, hash) {
                Some(entry) => {
                    let i = choose|i: int|
                        #[trigger] first_of_hash(entries, hash, i) && entries[i] == entry;
                    assert(i == k);
                },
                None => {
                    assert(entries[k].at("payment_hash"@) != Json::Text(hash));
                },
            }
        }
    }
    if let Some(Json::List(entries)) = reply.get("emails"@) {
        let rows = Seq::new(entries.len(), |i: int| listed(entries[i]));
        assert(rows_of(false, entries) =~= rows);
    }
    let items = items_of(reply);
    if index < items.len() {
        an_attachment_holds_its_own_bytes(items[index as int]);
    }
}

} // verus!
