//! What is sent of a message, read off the message's own leaves and headers.
use vstd::prelude::*;
use vstd::string::*;

use crate::codec::base64;
use crate::json::{member_of_push, Json};
use crate::outgoing::{
    a_message_is_gathered_leaf_by_leaf, address_headers, address_list, addresses_in,
    addresses_in_each, all_headers, attached_json, decoded, filename_of, first_header, flattened,
    gathered, gathered_leaf, gathered_leaves, held_by, is_attached, leaves, leaves_of_all, mail_parts, named_in,
    nothing, only_one, param, send_of, tree_of, AddressView, AttachedView, ContentView,
    GatheredView, Part, MAX_DEPTH, MAX_OUTGOING_ATTACHMENTS, MAX_OUTGOING_ATTACHMENT_TOTAL,
};

verus! {

/// Whether a text starts with another.
pub open spec fn starts(s: Seq<char>, head: Seq<char>) -> bool {
    s.len() >= head.len() && s.take(head.len() as int) == head
}

/// Whether a leaf of a message goes along as a file: its disposition is that of
/// an attachment, whatever its type, or its type is neither one of texts nor
/// one of wrappers.
pub open spec fn goes_as_file(leaf: ContentView) -> bool {
    leaf.attached || !(starts(leaf.mime_type, "text/"@) || starts(leaf.mime_type, "multipart/"@))
}

/// The leaves that go along as files, in their order.
pub open spec fn files(leaves: Seq<ContentView>) -> Seq<ContentView>
    decreases leaves.len(),
{
    if leaves.len() == 0 {
        Seq::empty()
    } else if goes_as_file(leaves[0]) {
        Seq::empty().push(leaves[0]) + files(leaves.drop_first())
    } else {
        files(leaves.drop_first())
    }
}

/// The plain texts among the leaves that go along as no file, in their order.
pub open spec fn plain_texts(leaves: Seq<ContentView>) -> Seq<ContentView>
    decreases leaves.len(),
{
    if leaves.len() == 0 {
        Seq::empty()
    } else if !goes_as_file(leaves[0]) && leaves[0].mime_type == "text/plain"@ {
        Seq::empty().push(leaves[0]) + plain_texts(leaves.drop_first())
    } else {
        plain_texts(leaves.drop_first())
    }
}

/// How many bytes some files hold together, once decoded.
pub open spec fn weight(files: Seq<ContentView>) -> nat
    decreases files.len(),
{
    if files.len() == 0 {
        0
    } else {
        weight(files.drop_last()) + (match files.last().raw {
            Some(bytes) => bytes.len(),
            None => 0,
        })
    }
}

/// Whether a parameter has a value: the first of the name has it.
pub open spec fn says(
    params: Seq<(Seq<char>, Seq<char>)>,
    name: Seq<char>,
    value: Seq<char>,
) -> bool {
    exists|i: int|
        0 <= i < params.len() && #[trigger] params[i] == (name, value) && forall|j: int|
            0 <= j < i ==> (#[trigger] params[j]).0 != name
}

/// Whether no parameter has a name.
pub open spec fn silent(params: Seq<(Seq<char>, Seq<char>)>, name: Seq<char>) -> bool {
    forall|i: int| 0 <= i < params.len() ==> (#[trigger] params[i]).0 != name
}

/// Whether a name is the one that a file goes by: what its disposition says,
/// else what its type says, else a name for any.
pub open spec fn goes_by(leaf: ContentView, name: Seq<char>) -> bool {
    ||| says(leaf.disposition_params, "filename"@, name)
    ||| silent(leaf.disposition_params, "filename"@) && says(leaf.type_params, "name"@, name)
    ||| silent(leaf.disposition_params, "filename"@) && silent(leaf.type_params, "name"@) && name
        == "attachment"@
}

proof fn a_parameter_is_found(params: Seq<(Seq<char>, Seq<char>)>, name: Seq<char>)
    ensures
        match param(params, name) {
            Some(value) => says(params, name, value),
            None => silent(params, name),
        },
    decreases params.len(),
{
    if params.len() > 0 {
        let rest = params.drop_first();
        a_parameter_is_found(rest, name);
        if params[0].0 == name {
            assert(params[0] == (name, params[0].1));
        } else {
            match param(rest, name) {
                Some(value) => {
                    let i = choose|i: int|
                        0 <= i < rest.len() && #[trigger] rest[i] == (name, value) && forall|j: int|
                            0 <= j < i ==> (#[trigger] rest[j]).0 != name;
                    assert(params[i + 1] == (name, value));
                    assert forall|j: int| 0 <= j < i + 1 implies (#[trigger] params[j]).0
                        != name by {
                        if j > 0 {
                            assert(rest[j - 1].0 != name);
                        }
                    }
                },
                None => {
                    assert forall|j: int| 0 <= j < params.len() implies (#[trigger] params[j]).0
                        != name by {
                        if j > 0 {
                            assert(rest[j - 1].0 != name);
                        }
                    }
                },
            }
        }
    }
}

proof fn a_file_goes_by_its_name(leaf: ContentView)
    ensures
        goes_by(leaf, filename_of(leaf)),
{
    a_parameter_is_found(leaf.disposition_params, "filename"@);
    a_parameter_is_found(leaf.type_params, "name"@);
}

proof fn attached_leaves_are_files(leaf: ContentView)
    ensures
        is_attached(leaf) == goes_as_file(leaf),
{
    assert(leaf.mime_type.len() >= "text/"@.len() ==> leaf.mime_type.subrange(
        0,
        "text/"@.len() as int,
    ) == leaf.mime_type.take("text/"@.len() as int));
    assert(leaf.mime_type.len() >= "multipart/"@.len() ==> leaf.mime_type.subrange(
        0,
        "multipart/"@.len() as int,
    ) == leaf.mime_type.take("multipart/"@.len() as int));
}

/// What is gathered of a file.
spec fn sent_as(leaf: ContentView) -> AttachedView {
    AttachedView {
        filename: filename_of(leaf),
        content_type: leaf.mime_type,
        content: base64(leaf.raw->0),
        size: leaf.raw->0.len(),
    }
}

/// Whether each of some files could be decoded.
pub open spec fn all_decoded(files: Seq<ContentView>) -> bool {
    forall|k: int| 0 <= k < files.len() ==> (#[trigger] files[k]).raw is Some
}

proof fn leaves_are_gathered(parts: Seq<ContentView>, so_far: GatheredView)
    requires
        so_far.attachments.len() <= 20,
    ensures
        gathered_leaves(parts, so_far) is Ok <==> {
            &&& all_decoded(files(parts))
            &&& so_far.attachments.len() + files(parts).len() <= 20
            &&& so_far.plain is None && plain_texts(parts).len() > 0 ==> plain_texts(
                parts,
            )[0].text is Some
        },
        gathered_leaves(parts, so_far) is Ok ==> {
            let g = gathered_leaves(parts, so_far)->Ok_0;
            &&& g.attachments == so_far.attachments + files(parts).map_values(
                |leaf: ContentView| sent_as(leaf),
            )
            &&& g.plain == (if so_far.plain is Some || plain_texts(parts).len() == 0 {
                so_far.plain
            } else {
                plain_texts(parts)[0].text
            })
        },
        gathered_leaves(parts, so_far) is Err ==> gathered_leaves(parts, so_far)->Err_0
            == "invalid_params",
    decreases parts.len(),
{
    let f = |leaf: ContentView| sent_as(leaf);
    if parts.len() == 0 {
        assert(so_far.attachments + files(parts).map_values(f) =~= so_far.attachments);
    } else {
        let rest = parts.drop_first();
        let here = files(parts);
        let below = files(rest);
        attached_leaves_are_files(parts[0]);
        if goes_as_file(parts[0]) {
            assert(here[0] == parts[0]);
            assert forall|k: int| 0 <= k < below.len() implies here[k + 1] == #[trigger] below[k] by {}
            if all_decoded(here) {
                assert(here[0].raw is Some);
                assert forall|k: int| 0 <= k < below.len() implies (
                #[trigger] below[k]).raw is Some by {
                    assert(here[k + 1].raw is Some);
                }
            }
            if parts[0].raw is Some && all_decoded(below) {
                assert forall|k: int| 0 <= k < here.len() implies (
                #[trigger] here[k]).raw is Some by {
                    if k > 0 {
                        assert(below[k - 1].raw is Some);
                    }
                }
            }
        }
        match gathered_leaf(parts[0], so_far) {
            Ok(more) => {
                leaves_are_gathered(rest, more);
                if goes_as_file(parts[0]) {
                    assert(so_far.attachments + here.map_values(f) =~= more.attachments
                        + below.map_values(f));
                } else if parts[0].mime_type == "text/plain"@ {
                    assert(plain_texts(parts)[0] == parts[0]);
                }
            },
            Err(e) => {
                if !goes_as_file(parts[0]) {
                    assert(plain_texts(parts)[0] == parts[0]);
                }
            },
        }
    }
}

proof fn held_is_weight(all: Seq<ContentView>, n: int)
    requires
        0 <= n <= all.len(),
        all_decoded(all),
    ensures
        held_by(all.map_values(|leaf: ContentView| sent_as(leaf)), n) == weight(all.take(n)),
    decreases n,
{
    if n > 0 {
        held_is_weight(all, n - 1);
        assert(all.take(n).drop_last() =~= all.take(n - 1));
        assert(all[n - 1].raw is Some);
    }
}

/// A message to one recipient is sent exactly where every file in it could be
/// decoded, its first plain text could, and there are at most twenty files of
/// at most 8 MiB together; nothing else keeps it from being sent.
pub proof fn when_a_message_is_sent(
    named: Seq<Option<Seq<Seq<char>>>>,
    subject: Seq<char>,
    in_reply_to: Seq<char>,
    references: Seq<char>,
    mail: Part,
)
    ensures
        ({
            let r = send_of(named, subject, in_reply_to, references, mail);
            let taken = files(leaves(mail, 0));
            let texts = plain_texts(leaves(mail, 0));
            let fair = all_decoded(taken) && taken.len() <= 20 && weight(taken) <= 8388608 && (
            texts.len() > 0 ==> texts[0].text is Some);
            &&& r is Ok <==> only_one(named) is Ok && fair
            &&& only_one(named) is Err ==> r is Err && r->Err_0 == only_one(named)->Err_0
            &&& only_one(named) is Ok && !fair ==> r == Err::<Json, &'static str>("invalid_params")
        }),
{
    let ls = leaves(mail, 0);
    let taken = files(ls);
    a_message_is_gathered_leaf_by_leaf(mail, 0, nothing());
    leaves_are_gathered(ls, nothing());
    let all = taken.map_values(|leaf: ContentView| sent_as(leaf));
    assert(Seq::<AttachedView>::empty() + all =~= all);
    if all_decoded(taken) {
        held_is_weight(taken, taken.len() as int);
        assert(taken.take(taken.len() as int) =~= taken);
    }
}

proof fn send_names()
    ensures
        "recipient"@ != "subject"@,
        "recipient"@ != "body"@,
        "recipient"@ != "in_reply_to"@,
        "recipient"@ != "references"@,
        "recipient"@ != "attachments"@,
        "subject"@ != "body"@,
        "subject"@ != "in_reply_to"@,
        "subject"@ != "references"@,
        "subject"@ != "attachments"@,
        "body"@ != "in_reply_to"@,
        "body"@ != "references"@,
        "body"@ != "attachments"@,
        "in_reply_to"@ != "references"@,
        "in_reply_to"@ != "attachments"@,
        "references"@ != "attachments"@,
        "filename"@ != "content_type"@,
        "filename"@ != "content"@,
        "content_type"@ != "content"@,
{
    reveal_strlit("recipient");
    reveal_strlit("subject");
    reveal_strlit("body");
    reveal_strlit("in_reply_to");
    reveal_strlit("references");
    reveal_strlit("attachments");
    reveal_strlit("filename");
    reveal_strlit("content_type");
    reveal_strlit("content");
    assert("recipient"@.len() == 9 && "subject"@.len() == 7 && "body"@.len() == 4);
    assert("in_reply_to"@.len() == 11 && "references"@.len() == 10 && "attachments"@.len() == 11);
    assert("in_reply_to"@[0] == 'i' && "attachments"@[0] == 'a');
    assert("filename"@.len() == 8 && "content_type"@.len() == 12 && "content"@.len() == 7);
}

/// A text that may be missing, as the endpoint takes it: null in place of an
/// empty one.
pub open spec fn null_if_empty(value: Json, text: Seq<char>) -> bool {
    if text.len() == 0 {
        value == Json::Null
    } else {
        value == Json::Text(text)
    }
}

/// What is sent of a message: every leaf whose disposition is that of an
/// attachment, of whatever type, and every other that is no text, each as a
/// file with its own name, its own type and its own bytes, in the order of the
/// message and nothing else as a file; the first plain text as the body; and
/// the subject and the threading headers as they are.
pub proof fn what_is_sent_of_a_message(
    named: Seq<Option<Seq<Seq<char>>>>,
    subject: Seq<char>,
    in_reply_to: Seq<char>,
    references: Seq<char>,
    mail: Part,
)
    requires
        send_of(named, subject, in_reply_to, references, mail) is Ok,
    ensures
        ({
            let sent = send_of(named, subject, in_reply_to, references, mail)->Ok_0;
            let taken = files(leaves(mail, 0));
            let texts = plain_texts(leaves(mail, 0));
            &&& sent is Record
            &&& sent->Record_0.len() == 6
            &&& sent.at("attachments"@) is List
            &&& sent.at("attachments"@)->List_0.len() == taken.len()
            &&& forall|k: int|
                #![trigger sent.at("attachments"@)->List_0[k]]
                0 <= k < taken.len() ==> {
                    let file = sent.at("attachments"@)->List_0[k];
                    &&& file.at("filename"@) is Text
                    &&& goes_by(taken[k], file.at("filename"@)->Text_0)
                    &&& file.at("content_type"@) == Json::Text(taken[k].mime_type)
                    &&& taken[k].raw is Some
                    &&& file.at("content"@) == Json::Text(base64(taken[k].raw->0))
                }
            &&& texts.len() == 0 ==> sent.at("body"@) == Json::Text(Seq::empty())
            &&& texts.len() > 0 ==> texts[0].text is Some && sent.at("body"@) == Json::Text(
                texts[0].text->0,
            )
            &&& sent.at("subject"@) == Json::Text(subject)
            &&& null_if_empty(sent.at("in_reply_to"@), in_reply_to)
            &&& null_if_empty(sent.at("references"@), references)
        }),
{
    broadcast use member_of_push;

    send_names();
    let sent = send_of(named, subject, in_reply_to, references, mail)->Ok_0;
    let ls = leaves(mail, 0);
    let taken = files(ls);
    a_message_is_gathered_leaf_by_leaf(mail, 0, nothing());
    leaves_are_gathered(ls, nothing());
    let all = taken.map_values(|leaf: ContentView| sent_as(leaf));
    assert(Seq::<AttachedView>::empty() + all =~= all);
    let g = gathered(mail, 0, nothing())->Ok_0;
    assert(g.attachments == all);
    let list = g.attachments.map_values(|a: AttachedView| attached_json(a));
    assert(sent.at("attachments"@) == Json::List(list));
    assert forall|k: int|
        #![trigger sent.at("attachments"@)->List_0[k]]
        0 <= k < taken.len() implies {
        let file = sent.at("attachments"@)->List_0[k];
        &&& file.at("filename"@) is Text
        &&& goes_by(taken[k], file.at("filename"@)->Text_0)
        &&& file.at("content_type"@) == Json::Text(taken[k].mime_type)
        &&& taken[k].raw is Some
        &&& file.at("content"@) == Json::Text(base64(taken[k].raw->0))
    } by {
        a_file_goes_by_its_name(taken[k]);
        assert(list[k] == attached_json(sent_as(taken[k])));
    }
}

proof fn a_file_keeps_its_place(ls: Seq<ContentView>, i: int)
    requires
        0 <= i < ls.len(),
        goes_as_file(ls[i]),
    ensures
        files(ls).contains(ls[i]),
    decreases ls.len(),
{
    let rest = ls.drop_first();
    if i == 0 {
        assert(files(ls)[0] == ls[0]);
    } else {
        a_file_keeps_its_place(rest, i - 1);
        assert(rest[i - 1] == ls[i]);
        let k = choose|k: int| 0 <= k < files(rest).len() && files(rest)[k] == ls[i];
        if goes_as_file(ls[0]) {
            assert(files(ls)[k + 1] == ls[i]);
        } else {
            assert(files(ls)[k] == ls[i]);
        }
    }
}

/// No attachment is left out: of a message that is sent every leaf whose
/// disposition is that of an attachment, of whatever type, is among the files
/// that are sent, with its type and its bytes.
pub proof fn no_attachment_is_left_out(
    named: Seq<Option<Seq<Seq<char>>>>,
    subject: Seq<char>,
    in_reply_to: Seq<char>,
    references: Seq<char>,
    mail: Part,
    i: int,
)
    requires
        send_of(named, subject, in_reply_to, references, mail) is Ok,
        0 <= i < leaves(mail, 0).len(),
        leaves(mail, 0)[i].attached,
    ensures
        ({
            let sent = send_of(named, subject, in_reply_to, references, mail)->Ok_0;
            let leaf = leaves(mail, 0)[i];
            &&& leaf.raw is Some
            &&& exists|k: int|
                0 <= k < sent.at("attachments"@)->List_0.len() && {
                    let file = #[trigger] sent.at("attachments"@)->List_0[k];
                    &&& file.at("content_type"@) == Json::Text(leaf.mime_type)
                    &&& file.at("content"@) == Json::Text(base64(leaf.raw->0))
                }
        }),
{
    let ls = leaves(mail, 0);
    what_is_sent_of_a_message(named, subject, in_reply_to, references, mail);
    a_file_keeps_its_place(ls, i);
    let k = choose|k: int| 0 <= k < files(ls).len() && files(ls)[k] == ls[i];
    let sent = send_of(named, subject, in_reply_to, references, mail)->Ok_0;
    let file = sent.at("attachments"@)->List_0[k];
    assert(file.at("content_type"@) == Json::Text(ls[i].mime_type));
}

/// The addresses in an entry of a list: its own, or those of its group.
pub open spec fn people_in(entry: AddressView) -> Seq<Seq<char>> {
    match entry {
        AddressView::Single(address) => Seq::empty().push(address),
        AddressView::Group(addresses) => addresses,
    }
}

/// The addresses in a list, from its first entry on.
pub open spec fn people(list: Seq<AddressView>) -> Seq<Seq<char>>
    decreases list.len(),
{
    if list.len() == 0 {
        Seq::empty()
    } else {
        people_in(list[0]) + people(list.drop_first())
    }
}

/// The addresses that some headers name, from the first one on, as far as they
/// can be read.
pub open spec fn all_people(values: Seq<Seq<char>>) -> Seq<Seq<char>>
    decreases values.len(),
{
    if values.len() == 0 {
        Seq::empty()
    } else if values[0].len() > 0 && address_list(values[0]) is Some {
        people(address_list(values[0])->0) + all_people(values.drop_first())
    } else {
        all_people(values.drop_first())
    }
}

proof fn flattened_are_people(list: Seq<AddressView>, n: int)
    requires
        0 <= n <= list.len(),
    ensures
        flattened(list, n) + people(list.skip(n)) == flattened(list, list.len() as int),
    decreases list.len() - n,
{
    let rest = list.skip(n);
    if n == list.len() {
        assert(flattened(list, n) + people(rest) =~= flattened(list, n));
    } else {
        flattened_are_people(list, n + 1);
        assert(rest.drop_first() =~= list.skip(n + 1));
        assert(rest[0] == list[n]);
        assert(flattened(list, n + 1) =~= flattened(list, n) + people_in(list[n]));
        assert(flattened(list, n) + (people_in(list[n]) + people(list.skip(n + 1))) =~= flattened(
            list,
            n + 1,
        ) + people(list.skip(n + 1)));
    }
}

proof fn named_are_people(values: Seq<Seq<char>>, n: int)
    requires
        0 <= n <= values.len(),
    ensures
        named_in(addresses_in_each(values), n) + all_people(values.skip(n)) == named_in(
            addresses_in_each(values),
            values.len() as int,
        ),
    decreases values.len() - n,
{
    let lists = addresses_in_each(values);
    let rest = values.skip(n);
    if n == values.len() {
        assert(named_in(lists, n) + all_people(rest) =~= named_in(lists, n));
    } else {
        named_are_people(values, n + 1);
        assert(rest.drop_first() =~= values.skip(n + 1));
        assert(rest[0] == values[n]);
        assert(lists[n] == addresses_in(values[n]));
        if values[n].len() > 0 && address_list(values[n]) is Some {
            let list = address_list(values[n])->0;
            flattened_are_people(list, 0);
            assert(list.skip(0) =~= list);
            assert(flattened(list, 0) + people(list) =~= people(list));
            assert(named_in(lists, n) + (people(list) + all_people(values.skip(n + 1)))
                =~= named_in(lists, n + 1) + all_people(values.skip(n + 1)));
        } else {
            assert(named_in(lists, n + 1) =~= named_in(lists, n));
        }
    }
}

/// Who a message goes to: the one address that all of its To, Cc and Bcc
/// headers name, those in groups among them, where every header that is not
/// empty can be read. A message that names nobody, or more than one, is
/// refused with a word that says so.
pub proof fn who_a_message_goes_to(raw: Seq<u8>)
    requires
        mail_parts(raw) is Some,
    ensures
        ({
            let values = all_headers(raw, "To"@) + all_headers(raw, "Cc"@) + all_headers(
                raw,
                "Bcc"@,
            );
            let all = all_people(values);
            &&& all.len() == 0 ==> decoded(raw) == Err::<Json, &'static str>(
                "lnemail_recipient_required",
            )
            &&& all.len() > 1 ==> decoded(raw) == Err::<Json, &'static str>(
                "lnemail_single_recipient_only",
            )
            &&& decoded(raw) is Ok ==> all.len() == 1 && decoded(raw)->Ok_0.at("recipient"@)
                == Json::Text(all[0])
            &&& decoded(raw) is Ok ==> forall|i: int|
                0 <= i < values.len() && (#[trigger] values[i]).len() > 0 ==> address_list(
                    values[i],
                ) is Some
            &&& all.len() == 1 && (forall|i: int|
                0 <= i < values.len() && (#[trigger] values[i]).len() > 0 ==> address_list(
                    values[i],
                ) is Some) ==> only_one(addresses_in_each(values)) == Ok::<
                Seq<char>,
                &'static str,
            >(all[0])
        }),
{
    broadcast use member_of_push;

    send_names();
    let values = address_headers(raw);
    let lists = addresses_in_each(values);
    named_are_people(values, 0);
    assert(values.skip(0) =~= values);
    assert(named_in(lists, 0) + all_people(values) =~= all_people(values));
    if decoded(raw) is Ok {
        assert forall|i: int| 0 <= i < values.len() && (
        #[trigger] values[i]).len() > 0 implies address_list(values[i]) is Some by {
            assert(lists[i] is Some);
        }
    }
    if forall|i: int|
        0 <= i < values.len() && (#[trigger] values[i]).len() > 0 ==> address_list(
            values[i],
        ) is Some {
        assert forall|i: int| 0 <= i < lists.len() implies (#[trigger] lists[i]) is Some by {
            assert(values[i].len() > 0 ==> address_list(values[i]) is Some);
        }
    }
}

/// The subject and the threading headers of a send are the first of their names
/// in the message, and its files and its body those of the message's own tree.
/// What is no message is refused.
pub proof fn a_send_has_the_headers_of_its_message(raw: Seq<u8>)
    ensures
        mail_parts(raw) is None ==> decoded(raw) == Err::<Json, &'static str>("invalid_params"),
        decoded(raw) is Ok ==> {
            let sent = decoded(raw)->Ok_0;
            let value = |name: Seq<char>|
                match first_header(raw, name) {
                    Some(value) => value,
                    None => Seq::empty(),
                };
            let mail = tree_of(mail_parts(raw)->0);
            let texts = plain_texts(leaves(mail, 0));
            &&& sent.at("subject"@) == Json::Text(value("Subject"@))
            &&& null_if_empty(sent.at("in_reply_to"@), value("In-Reply-To"@))
            &&& null_if_empty(sent.at("references"@), value("References"@))
            &&& sent.at("attachments"@)->List_0.len() == files(leaves(mail, 0)).len()
            &&& sent.at("body"@) == Json::Text(
                if texts.len() == 0 {
                    Seq::empty()
                } else {
                    texts[0].text->0
                },
            )
        },
{
    if decoded(raw) is Ok {
        let value = |name: Seq<char>|
            match first_header(raw, name) {
                Some(value) => value,
                None => Seq::empty(),
            };
        what_is_sent_of_a_message(
            addresses_in_each(address_headers(raw)),
            value("Subject"@),
            value("In-Reply-To"@),
            value("References"@),
            tree_of(mail_parts(raw)->0),
        );
    }
}

/// What the limits on a message that is sent are.
pub proof fn the_limits_of_a_send()
    ensures
        MAX_DEPTH == 12,
        MAX_OUTGOING_ATTACHMENTS == 20,
        MAX_OUTGOING_ATTACHMENT_TOTAL == 8 * 1024 * 1024,
{
}

/// The part that a path of places leads to from a part.
pub open spec fn part_at(part: Part, path: Seq<int>) -> Option<Part>
    decreases path.len(),
{
    if path.len() == 0 {
        Some(part)
    } else if 0 <= path[0] < part.subparts.len() {
        part_at(part.subparts[path[0]], path.drop_first())
    } else {
        None
    }
}

/// Whether a part without parts of its own stands at a path.
pub open spec fn leaf_at(part: Part, path: Seq<int>, content: ContentView) -> bool {
    part_at(part, path) matches Some(leaf) && leaf.subparts.len() == 0 && leaf.content == content
}

proof fn leaves_below(part: Part, depth: nat, path: Seq<int>, content: ContentView)
    requires
        depth + path.len() <= 12,
        leaf_at(part, path, content),
    ensures
        leaves(part, depth).contains(content),
    decreases path.len(),
{
    if path.len() == 0 {
        assert(leaves(part, depth)[0] == content);
    } else {
        leaves_below(part.subparts[path[0]], depth + 1, path.drop_first(), content);
        leaves_of_one_are_of_all(part.subparts, 0, path[0], depth + 1, content);
    }
}

proof fn leaves_of_one_are_of_all(
    parts: Seq<Part>,
    from: int,
    i: int,
    depth: nat,
    content: ContentView,
)
    requires
        0 <= from <= i < parts.len(),
        leaves(parts[i], depth).contains(content),
    ensures
        leaves_of_all(parts, from, depth).contains(content),
    decreases i - from,
{
    let here = leaves(parts[from], depth);
    let rest = leaves_of_all(parts, from + 1, depth);
    let all = leaves_of_all(parts, from, depth);
    if from == i {
        let k = choose|k: int| 0 <= k < here.len() && here[k] == content;
        assert(all[k] == content);
    } else {
        leaves_of_one_are_of_all(parts, from + 1, i, depth, content);
        let k = choose|k: int| 0 <= k < rest.len() && rest[k] == content;
        assert(all[here.len() + k] == content);
    }
}

proof fn leaves_have_paths(part: Part, depth: nat, k: int) -> (path: Seq<int>)
    requires
        depth <= 12,
        0 <= k < leaves(part, depth).len(),
    ensures
        depth + path.len() <= 12,
        leaf_at(part, path, leaves(part, depth)[k]),
    decreases part, 0int,
{
    if part.subparts.len() > 0 {
        let (i, below) = leaves_of_all_have_paths(part.subparts, 0, depth + 1, k);
        let path = Seq::empty().push(i) + below;
        assert(path.drop_first() =~= below);
        path
    } else {
        Seq::empty()
    }
}

proof fn leaves_of_all_have_paths(parts: Seq<Part>, from: int, depth: nat, k: int) -> (r: (
    int,
    Seq<int>,
))
    requires
        0 <= from <= parts.len(),
        0 <= k < leaves_of_all(parts, from, depth).len(),
    ensures
        0 <= r.0 < parts.len(),
        depth + r.1.len() <= 12,
        leaf_at(parts[r.0], r.1, leaves_of_all(parts, from, depth)[k]),
    decreases parts, parts.len() - from,
{
    let here = leaves(parts[from], depth);
    if k < here.len() {
        assert(depth <= 12);
        (from, leaves_have_paths(parts[from], depth, k))
    } else {
        assert(leaves_of_all(parts, from, depth)[k] == leaves_of_all(parts, from + 1, depth)[k
            - here.len()]);
        leaves_of_all_have_paths(parts, from + 1, depth, k - here.len())
    }
}

/// A message is looked through twelve levels deep: every part without parts of
/// its own that at most twelve steps lead to is a leaf, and every leaf is such
/// a part.
pub proof fn a_message_is_looked_through(mail: Part, path: Seq<int>, content: ContentView, k: int)
    ensures
        path.len() <= 12 && leaf_at(mail, path, content) ==> leaves(mail, 0).contains(content),
        0 <= k < leaves(mail, 0).len() ==> exists|at: Seq<int>|
            at.len() <= 12 && #[trigger] leaf_at(mail, at, leaves(mail, 0)[k]),
{
    if path.len() <= 12 && leaf_at(mail, path, content) {
        leaves_below(mail, 0, path, content);
    }
    if 0 <= k < leaves(mail, 0).len() {
        let at = leaves_have_paths(mail, 0, k);
        assert(leaf_at(mail, at, leaves(mail, 0)[k]));
    }
}

} // verus!
