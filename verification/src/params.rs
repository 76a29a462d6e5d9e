//! The checks on a caller's parameters. Every refusal is `invalid_params`.
use vstd::prelude::*;
use vstd::string::*;

use crate::json::{list_of, record_of, Json, Members, Record, Value};
use crate::text::{after_prefix, begins_with, bytes_of, byte_len, is_white_space, same, white_space};

verus! {

/// The most attachments that one message may carry.
pub const MAX_ATTACHMENTS: usize = 20;

/// The most bytes that the contents of one message's attachments may take
/// together.
pub const MAX_ATTACHMENT_TOTAL: usize = 8 * 1024 * 1024;

/// What the strings of a run are.
pub open spec fn strings(items: Seq<&str>) -> Seq<Seq<char>> {
    Seq::new(items.len(), |i: int| items[i]@)
}

/// A result with the string in it taken as its characters.
pub open spec fn in_characters(r: Result<&str, &'static str>) -> Result<Seq<char>, &'static str> {
    match r {
        Ok(s) => Ok(s@),
        Err(e) => Err(e),
    }
}

/// Whether every field has one of the given names.
pub open spec fn only_names(fields: Record, keys: Seq<Seq<char>>) -> bool {
    forall|i: int| 0 <= i < fields.len() ==> keys.contains(#[trigger] fields[i].0)
}

/// Whether the parameters are an object with fields of the given names only.
pub open spec fn allows(p: Json, keys: Seq<Seq<char>>) -> bool {
    p is Record && only_names(p->Record_0, keys)
}

fn one_of(name: &str, keys: &[&str]) -> (r: bool)
    ensures
        r == strings(keys@).contains(name@),
{
    for i in 0..keys.len()
        invariant
            forall|j: int| 0 <= j < i ==> keys@[j]@ != name@,
    {
        if same(keys[i], name) {
            assert(strings(keys@)[i as int] == name@);
            return true;
        }
    }
    false
}

/// Refuses anything but an object whose fields all have one of the given
/// names.
pub fn allowed(p: &Value, keys: &[&str]) -> (r: Result<(), &'static str>)
    ensures
        r == (if allows(p@, strings(keys@)) {
            Ok::<(), &'static str>(())
        } else {
            Err("invalid_params")
        }),
{
    let fields = match p.as_object() {
        Some(fields) => fields,
        None => return Err("invalid_params"),
    };
    let ghost all = record_of(fields@);
    for i in 0..fields.len()
        invariant
            p@ == Json::Record(all),
            all == record_of(fields@),
            forall|j: int| 0 <= j < i ==> strings(keys@).contains(#[trigger] all[j].0),
    {
        assert(all[i as int] == fields@[i as int]@);
        if !one_of(fields[i].name.as_str(), keys) {
            assert(!strings(keys@).contains(all[i as int].0));
            return Err("invalid_params");
        }
    }
    Ok(())
}

/// The bytes that a path component may hold.
pub open spec fn segment_byte(b: u8) -> bool {
    ||| 48 <= b <= 57
    ||| 65 <= b <= 90
    ||| 97 <= b <= 122
    ||| b == 45
    ||| b == 95
}

/// A path component: letters, digits, hyphens and underscores, at least one
/// and at most 128.
pub open spec fn is_segment(s: Seq<char>) -> bool {
    &&& s.len() > 0
    &&& bytes_of(s).len() <= 128
    &&& forall|i: int| 0 <= i < bytes_of(s).len() ==> segment_byte(#[trigger] bytes_of(s)[i])
}

/// The path component that `key` names.
pub open spec fn segment_of(p: Json, key: Seq<char>) -> Result<Seq<char>, &'static str> {
    segment_in(p.at(key))
}

/// The path component that a value is.
pub open spec fn segment_in(value: Json) -> Result<Seq<char>, &'static str> {
    match value {
        Json::Text(s) => if is_segment(s) {
            Ok(s)
        } else {
            Err("invalid_params")
        },
        _ => Err("invalid_params"),
    }
}

fn segment_text(s: &str) -> (r: bool)
    ensures
        r == is_segment(s@),
{
    let bytes = s.as_bytes();
    if s.is_empty() || bytes.len() > 128 {
        return false;
    }
    for i in 0..bytes.len()
        invariant
            bytes@ == bytes_of(s@),
            forall|j: int| 0 <= j < i ==> segment_byte(#[trigger] bytes@[j]),
    {
        let b: u8 = bytes[i];
        if !((48 <= b && b <= 57) || (65 <= b && b <= 90) || (97 <= b && b <= 122) || b == 45 || b
            == 95) {
            return false;
        }
    }
    true
}

/// A value as a path component.
pub fn segment_value(value: &Value) -> (r: Result<&str, &'static str>)
    ensures
        in_characters(r) == segment_in(value@),
{
    match value.as_str() {
        Some(s) => if segment_text(s) {
            Ok(s)
        } else {
            Err("invalid_params")
        },
        None => Err("invalid_params"),
    }
}

/// A path component: an id or a payment hash, never a slash or a URL of its
/// own.
pub fn segment<'a>(p: &'a Value, key: &str) -> (r: Result<&'a str, &'static str>)
    ensures
        in_characters(r) == segment_of(p@, key@),
{
    match p.get(key) {
        Some(value) => segment_value(value),
        None => Err("invalid_params"),
    }
}

/// What a row in the recent-sends log puts before its payment hash, to tell its
/// id from that of a message.
pub const SENT_ID_PREFIX: &'static str = "send-";

/// The payment hash in a row's id, where the id is one of the recent-sends
/// log.
pub open spec fn hash_in(id: Seq<char>) -> Option<Seq<char>> {
    if begins_with(id, SENT_ID_PREFIX@) {
        Some(id.skip(SENT_ID_PREFIX@.len() as int))
    } else {
        None
    }
}

/// The payment hash that a row of the recent-sends log is named by.
pub fn sent_hash(id: &str) -> (r: Option<&str>)
    ensures
        r is Some <==> hash_in(id@) is Some,
        r is Some ==> r->0@ == hash_in(id@)->0,
{
    after_prefix(id, SENT_ID_PREFIX)
}

/// The id that the recent-sends log gives to the row with a payment hash.
pub open spec fn sent_id(hash: Seq<char>) -> Seq<char> {
    SENT_ID_PREFIX@ + hash
}

/// The id of a row in the recent-sends log gives back the payment hash that it
/// was made of, and two rows have one id only if they have one hash. The id of
/// a message that does not begin with the prefix is that of no row.
pub proof fn sent_id_names_its_hash(hash: Seq<char>, other: Seq<char>)
    ensures
        hash_in(sent_id(hash)) == Some(hash),
        sent_id(hash) == sent_id(other) ==> hash == other,
        hash_in(other) is None ==> sent_id(hash) != other,
{
    let n = SENT_ID_PREFIX@.len() as int;
    assert(sent_id(hash).subrange(0, n) =~= SENT_ID_PREFIX@);
    assert(sent_id(hash).skip(n) =~= hash);
    assert(sent_id(other).skip(n) =~= other);
}

/// The text that `key` names: at most `max` bytes and no NUL. Where it is not
/// required, an absent or null field is the empty text.
pub open spec fn text_of(p: Json, key: Seq<char>, required: bool, max: nat) -> Result<
    Seq<char>,
    &'static str,
> {
    match p.at(key) {
        Json::Text(s) => if bytes_of(s).len() <= max && !bytes_of(s).contains(0) {
            Ok(s)
        } else {
            Err("invalid_params")
        },
        Json::Null => if required {
            Err("invalid_params")
        } else {
            Ok(Seq::empty())
        },
        _ => Err("invalid_params"),
    }
}

fn has_nul(bytes: &[u8]) -> (r: bool)
    ensures
        r == bytes@.contains(0),
{
    for i in 0..bytes.len()
        invariant
            forall|j: int| 0 <= j < i ==> bytes@[j] != 0,
    {
        if bytes[i] == 0 {
            return true;
        }
    }
    false
}

/// The text that `key` names, within `max` bytes and without a NUL.
pub fn text<'a>(p: &'a Value, key: &str, required: bool, max: usize) -> (r: Result<
    &'a str,
    &'static str,
>)
    ensures
        in_characters(r) == text_of(p@, key@, required, max as nat),
{
    match p.get(key) {
        Some(Value::String(s)) => {
            let bytes = s.as_str().as_bytes();
            if bytes.len() > max || has_nul(bytes) {
                return Err("invalid_params");
            }
            Ok(s.as_str())
        },
        None | Some(Value::Null) => {
            if required {
                Err("invalid_params")
            } else {
                proof {
                    reveal_strlit("");
                    assert(""@ =~= Seq::<char>::empty());
                }
                Ok("")
            }
        },
        _ => Err("invalid_params"),
    }
}

/// The flag that `key` names; absent or null is false.
pub open spec fn flag_of(p: Json, key: Seq<char>) -> Result<bool, &'static str> {
    match p.at(key) {
        Json::Null => Ok(false),
        Json::Bool(b) => Ok(b),
        _ => Err("invalid_params"),
    }
}

/// The flag that `key` names; absent or null is false.
pub fn boolean(p: &Value, key: &str) -> (r: Result<bool, &'static str>)
    ensures
        r == flag_of(p@, key@),
{
    match p.get(key) {
        None | Some(Value::Null) => Ok(false),
        Some(Value::Bool(b)) => Ok(*b),
        _ => Err("invalid_params"),
    }
}

/// A text as the service takes it: null for an empty one.
pub open spec fn text_or_null(s: Seq<char>) -> Json {
    if s.len() == 0 {
        Json::Null
    } else {
        Json::Text(s)
    }
}

/// A text as the service takes it: null for an empty one, never an empty
/// string.
pub fn optional(value: &str) -> (r: Value)
    ensures
        r@ == text_or_null(value@),
{
    if value.is_empty() {
        Value::null()
    } else {
        Value::text(value)
    }
}

/// Whether no byte is a control byte.
pub open spec fn no_control(bytes: Seq<u8>) -> bool {
    forall|i: int| 0 <= i < bytes.len() ==> #[trigger] bytes[i] >= 32 && bytes[i] != 127
}

/// Whether a string holds no control byte.
pub fn free_of_control(bytes: &[u8]) -> (r: bool)
    ensures
        r == no_control(bytes@),
{
    for i in 0..bytes.len()
        invariant
            forall|j: int| 0 <= j < i ==> #[trigger] bytes@[j] >= 32 && bytes@[j] != 127,
    {
        if bytes[i] < 32 || bytes[i] == 127 {
            return false;
        }
    }
    true
}

/// The token in the parameters: none where it is absent or null, and never
/// one that is empty, over 16384 bytes or holds a control byte.
pub open spec fn token_of(p: Json) -> Result<Option<Seq<char>>, &'static str> {
    match p.at("token"@) {
        Json::Null => Ok(None),
        Json::Text(s) => if s.len() > 0 && bytes_of(s).len() <= 16384 && no_control(bytes_of(s)) {
            Ok(Some(s))
        } else {
            Err("invalid_params")
        },
        _ => Err("invalid_params"),
    }
}

/// A token supplied directly, for verifying a pasted or freshly paid-for
/// token before the account exists to resolve one through the keyring.
pub fn explicit_token(p: &Value) -> (r: Result<Option<&str>, &'static str>)
    ensures
        match r {
            Ok(Some(s)) => token_of(p@) == Ok::<Option<Seq<char>>, &'static str>(Some(s@)),
            Ok(None) => token_of(p@) == Ok::<Option<Seq<char>>, &'static str>(None),
            Err(e) => token_of(p@) == Err::<Option<Seq<char>>, &'static str>(e),
        },
{
    match p.get("token") {
        None | Some(Value::Null) => Ok(None),
        Some(Value::String(s)) => {
            let bytes = s.as_str().as_bytes();
            if s.as_str().is_empty() || bytes.len() > 16384 || !free_of_control(bytes) {
                return Err("invalid_params");
            }
            Ok(Some(s.as_str()))
        },
        _ => Err("invalid_params"),
    }
}

/// An address: a local part before its last at sign, a domain with a dot
/// behind it, and no white space.
pub open spec fn is_address(s: Seq<char>) -> bool {
    &&& forall|i: int| 0 <= i < s.len() ==> !white_space(#[trigger] s[i])
    &&& exists|at: int| #[trigger]
        last_at_sign(s, at) && at > 0 && s.skip(at + 1).contains('.')
}

/// Whether the last at sign stands at `at`.
pub open spec fn last_at_sign(s: Seq<char>, at: int) -> bool {
    &&& 0 <= at < s.len()
    &&& s[at] == '@'
    &&& forall|j: int| at < j < s.len() ==> s[j] != '@'
}

/// Refuses anything but an address with a local part, a domain and no white
/// space.
pub fn email_address(value: &str) -> (r: Result<(), &'static str>)
    ensures
        r == (if is_address(value@) {
            Ok::<(), &'static str>(())
        } else {
            Err("invalid_params")
        }),
{
    let ghost s = value@;
    let ghost mut at: int = -1;
    let mut seen: bool = false;
    let mut local: bool = false;
    let mut dotted: bool = false;
    let mut any: bool = false;
    for c in it: value.chars()
        invariant
            s == value@,
            it.seq() == s,
            0 <= it.index() <= s.len(),
            any == (it.index() > 0),
            forall|i: int| 0 <= i < it.index() ==> !white_space(#[trigger] s[i]),
            -1 <= at < it.index(),
            seen == (at >= 0),
            seen ==> s[at] == '@',
            forall|j: int| at < j < it.index() ==> s[j] != '@',
            local == (at > 0),
            dotted == (seen && exists|j: int| at < j < it.index() && #[trigger] s[j] == '.'),
    {
        let ghost k = it.index() as int;
        assert(c == s[k]);
        if is_white_space(c) {
            assert(white_space(s[k]));
            return Err("invalid_params");
        }
        if c == '@' {
            local = any;
            seen = true;
            dotted = false;
            proof {
                at = k;
            }
        } else if c == '.' && seen {
            dotted = true;
            assert(at < k < k + 1 && s[k] == '.');
        }
        any = true;
    }
    proof {
        if seen {
            assert(last_at_sign(s, at));
            assert forall|other: int| last_at_sign(s, other) implies other == at by {}
            if dotted {
                let j = choose|j: int| at < j < s.len() && #[trigger] s[j] == '.';
                assert(s.skip(at + 1)[j - at - 1] == '.');
            } else if s.skip(at + 1).contains('.') {
                let domain = s.skip(at + 1);
                let j = choose|j: int| 0 <= j < domain.len() && domain[j] == '.';
                assert(s[at + 1 + j] == '.');
            }
        }
    }
    if local && dotted {
        Ok(())
    } else {
        Err("invalid_params")
    }
}

/// Whether an item names a file, its type and its content.
pub open spec fn attachment_named(item: Json) -> bool {
    &&& item.at("filename"@) is Text
    &&& item.at("contentType"@) is Text
    &&& item.at("content"@) is Text
}

/// An attachment as the service takes it.
pub open spec fn attachment_fields(item: Json) -> Json {
    Json::Record(
        Seq::empty().push(("filename"@, item.at("filename"@))).push(
            ("content_type"@, item.at("contentType"@)),
        ).push(("content"@, item.at("content"@))),
    )
}

/// How many bytes the contents of the first `n` items take together.
pub open spec fn content_total(items: Seq<Json>, n: int) -> nat
    decreases n,
{
    if n <= 0 {
        0
    } else {
        content_total(items, n - 1) + bytes_of(items[n - 1].at("content"@)->Text_0).len()
    }
}

/// Whether attachments are within what one message may carry.
pub open spec fn attachments_fit(items: Seq<Json>) -> bool {
    &&& items.len() <= MAX_ATTACHMENTS
    &&& forall|i: int| 0 <= i < items.len() ==> attachment_named(#[trigger] items[i])
    &&& content_total(items, items.len() as int) <= MAX_ATTACHMENT_TOTAL
}

/// The attachments in the parameters: none where the field is absent or null.
pub open spec fn attachments_of(p: Json) -> Result<Seq<Json>, &'static str> {
    match p.at("attachments"@) {
        Json::Null => Ok(Seq::empty()),
        Json::List(items) => if attachments_fit(items) {
            Ok(items.map_values(|item: Json| attachment_fields(item)))
        } else {
            Err("invalid_params")
        },
        _ => Err("invalid_params"),
    }
}

proof fn content_total_grows(items: Seq<Json>, n: int)
    requires
        0 <= n <= items.len(),
    ensures
        content_total(items, n) <= content_total(items, items.len() as int),
    decreases items.len() - n,
{
    if n < items.len() {
        content_total_grows(items, n + 1);
    }
}

/// The attachments in the parameters as the service takes them, capped in
/// count and combined size.
pub fn attachments(p: &Value) -> (r: Result<Vec<Value>, &'static str>)
    ensures
        match r {
            Ok(items) => attachments_of(p@) == Ok::<Seq<Json>, &'static str>(list_of(items@)),
            Err(e) => attachments_of(p@) == Err::<Seq<Json>, &'static str>(e),
        },
{
    let items = match p.get("attachments") {
        None | Some(Value::Null) => {
            let none: Vec<Value> = Vec::new();
            assert(list_of(none@) =~= Seq::<Json>::empty());
            return Ok(none);
        },
        Some(value) => match value.as_array() {
            Some(items) => items,
            None => return Err("invalid_params"),
        },
    };
    let ghost all = list_of(items@);
    if items.len() > MAX_ATTACHMENTS {
        return Err("invalid_params");
    }
    let mut out: Vec<Value> = Vec::new();
    let mut total: usize = 0;
    for i in 0..items.len()
        invariant
            p@.at("attachments"@) == Json::List(all),
            all == list_of(items@),
            all.len() <= MAX_ATTACHMENTS,
            out@.len() == i,
            forall|j: int| 0 <= j < i ==> attachment_named(#[trigger] all[j]),
            forall|j: int| 0 <= j < i ==> (#[trigger] out@[j])@ == attachment_fields(all[j]),
            total == content_total(all, i as int),
            total <= MAX_ATTACHMENT_TOTAL,
    {
        let item = &items[i];
        assert(item@ == all[i as int]);
        proof {
            content_total_grows(all, i + 1);
        }
        match (item.get("filename"), item.get("contentType"), item.get("content")) {
            (
                Some(Value::String(filename)),
                Some(Value::String(kind)),
                Some(Value::String(content)),
            ) => {
                let size: usize = byte_len(content.as_str());
                if size > MAX_ATTACHMENT_TOTAL - total {
                    return Err("invalid_params");
                }
                total = total + size;
                out.push(
                    Members::new().with("filename", Value::text(filename.as_str())).with(
                        "content_type",
                        Value::text(kind.as_str()),
                    ).with("content", Value::text(content.as_str())).object(),
                );
            },
            _ => {
                assert(!attachment_named(all[i as int]));
                return Err("invalid_params");
            },
        }
    }
    assert(list_of(out@) =~= all.map_values(|item: Json| attachment_fields(item)));
    Ok(out)
}

} // verus!
