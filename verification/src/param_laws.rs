//! Which parameters a call takes and what it takes them for, said of the
//! characters and the numbers in them.
use vstd::prelude::*;
use vstd::string::*;
use vstd::utf8::*;

use crate::json::{member_of_push, Json};
use crate::params::{
    attachment_named, attachments_of, content_total, flag_of, is_address,
    is_segment, last_at_sign, segment_byte, segment_in, text_of, text_or_null, token_of,
    MAX_ATTACHMENTS, MAX_ATTACHMENT_TOTAL,
};
use crate::text::{
    all_digits, ascii_bytes_are_characters, bytes_of, digits_value, index_named, is_digit,
    white_space,
};

verus! {

/// Whether a text is an id or a hash that may stand in a path: one to 128
/// letters and digits of ASCII, hyphens and underscores.
pub open spec fn word(s: Seq<char>) -> bool {
    &&& 1 <= s.len() <= 128
    &&& forall|i: int|
        0 <= i < s.len() ==> {
            let c = #[trigger] s[i];
            'a' <= c <= 'z' || 'A' <= c <= 'Z' || '0' <= c <= '9' || c == '-' || c == '_'
        }
}

/// Whether a field holds such a text.
pub open spec fn word_at(p: Json, key: Seq<char>) -> bool {
    p.get(key) matches Some(Json::Text(s)) && word(s)
}

/// A text is taken into a path exactly where it is one to 128 letters, digits,
/// hyphens and underscores.
pub proof fn a_word_is_a_segment(s: Seq<char>)
    ensures
        is_segment(s) <==> word(s),
        segment_in(Json::Text(s)) == (if word(s) {
            Ok::<Seq<char>, &'static str>(s)
        } else {
            Err("invalid_params")
        }),
{
    if is_segment(s) {
        assert forall|i: int| 0 <= i < bytes_of(s).len() implies #[trigger] bytes_of(s)[i]
            < 128 by {
            assert(segment_byte(bytes_of(s)[i]));
        }
        ascii_bytes_are_characters(s);
        is_ascii_chars_encode_utf8(s);
        assert forall|i: int| 0 <= i < s.len() implies {
            let c = #[trigger] s[i];
            'a' <= c <= 'z' || 'A' <= c <= 'Z' || '0' <= c <= '9' || c == '-' || c == '_'
        } by {
            assert(segment_byte(bytes_of(s)[i]));
            assert(bytes_of(s)[i] == s[i] as u8);
        }
    }
    if word(s) {
        assert(is_ascii_chars(s));
        is_ascii_chars_encode_utf8(s);
        assert forall|i: int| 0 <= i < bytes_of(s).len() implies segment_byte(
            #[trigger] bytes_of(s)[i],
        ) by {
            assert(bytes_of(s)[i] == s[i] as u8);
            let c = s[i];
            assert('a' <= c <= 'z' || 'A' <= c <= 'Z' || '0' <= c <= '9' || c == '-' || c == '_');
        }
    }
}

/// Whether a field is a text within a length and without a NUL, or is not
/// there.
pub open spec fn fair_text(p: Json, key: Seq<char>, max: nat) -> bool {
    match p.at(key) {
        Json::Null => true,
        Json::Text(s) => bytes_of(s).len() <= max && forall|i: int|
            0 <= i < bytes_of(s).len() ==> #[trigger] bytes_of(s)[i] != 0,
        _ => false,
    }
}

/// The text of a field, empty where it is not there.
pub open spec fn text_at(p: Json, key: Seq<char>) -> Seq<char> {
    match p.at(key) {
        Json::Text(s) => s,
        _ => Seq::empty(),
    }
}

/// A text is taken as it is where it is within its length and holds no NUL; one
/// that is not there counts as empty where it is not required.
pub proof fn which_texts_are_taken(p: Json, key: Seq<char>, required: bool, max: nat)
    ensures
        text_of(p, key, required, max) == (if fair_text(p, key, max) && (required ==> p.at(
            key,
        ) is Text) {
            Ok::<Seq<char>, &'static str>(text_at(p, key))
        } else {
            Err("invalid_params")
        }),
        text_or_null(text_at(p, key)) == (if text_at(p, key).len() > 0 {
            Json::Text(text_at(p, key))
        } else {
            Json::Null
        }),
{
}

/// Whether a field is a flag, or is not there.
pub open spec fn is_flag(p: Json, key: Seq<char>) -> bool {
    p.at(key) is Bool || p.at(key) is Null
}

/// Whether a flag is set; one that is not there is not.
pub open spec fn flag_at(p: Json, key: Seq<char>) -> bool {
    p.at(key) == Json::Bool(true)
}

/// A flag is taken as it is, one that is not there as not set, and nothing else
/// as a flag.
pub proof fn which_flags_are_taken(p: Json, key: Seq<char>)
    ensures
        flag_of(p, key) == (if is_flag(p, key) {
            Ok::<bool, &'static str>(flag_at(p, key))
        } else {
            Err("invalid_params")
        }),
{
}

/// Whether a value is a token: one to 16384 bytes, none of them a control byte.
pub open spec fn fair_token(value: Json) -> bool {
    value matches Json::Text(s) && 1 <= bytes_of(s).len() <= 16384 && forall|i: int|
        0 <= i < bytes_of(s).len() ==> 32 <= #[trigger] bytes_of(s)[i] && bytes_of(s)[i] != 127
}

/// A token is taken as it is where it is fair, and refused where it is not; one
/// that is not there is none.
pub proof fn which_tokens_are_taken(p: Json)
    ensures
        p.at("token"@) is Null ==> token_of(p) == Ok::<Option<Seq<char>>, &'static str>(None),
        !(p.at("token"@) is Null) ==> token_of(p) == (if fair_token(p.at("token"@)) {
            Ok::<Option<Seq<char>>, &'static str>(Some(p.at("token"@)->Text_0))
        } else {
            Err("invalid_params")
        }),
{
    if p.at("token"@) is Text {
        let s = p.at("token"@)->Text_0;
        if s.len() == 0 {
            assert(bytes_of(s) =~= Seq::<u8>::empty());
        } else {
            encode_utf8_first_scalar(s);
            assert(bytes_of(s).len() > 0);
        }
    }
}

/// The number that digits stand for, read from the left behind one that was
/// read already.
pub open spec fn read_on(digits: Seq<char>, so_far: nat) -> nat
    decreases digits.len(),
{
    if digits.len() == 0 {
        so_far
    } else {
        read_on(digits.drop_first(), (10 * so_far + (digits[0] as u32 - '0' as u32)) as nat)
    }
}

/// Whether a text is made of digits.
pub open spec fn all_in_digits(s: Seq<char>) -> bool {
    forall|i: int| 0 <= i < s.len() ==> '0' <= #[trigger] s[i] <= '9'
}

/// Whether a text reads as a number: digits, one at least, and a plus sign
/// before them or none.
pub open spec fn reads_as(s: Seq<char>, n: nat) -> bool {
    let digits = if s.len() > 0 && s[0] == '+' {
        s.skip(1)
    } else {
        s
    };
    digits.len() > 0 && all_in_digits(digits) && read_on(digits, 0) == n
}

proof fn read_on_is_the_value(s: Seq<char>, k: int)
    requires
        0 <= k <= s.len(),
        forall|i: int| 0 <= i < s.len() ==> '0' <= #[trigger] s[i] <= '9',
    ensures
        read_on(s.skip(k), digits_value(s.take(k))) == digits_value(s),
    decreases s.len() - k,
{
    if k == s.len() {
        assert(s.take(k) =~= s);
    } else {
        read_on_is_the_value(s, k + 1);
        assert(s.skip(k).drop_first() =~= s.skip(k + 1));
        assert(s.take(k + 1).drop_last() =~= s.take(k));
        assert(s.take(k + 1).last() == s[k] && s.skip(k)[0] == s[k]);
        assert('0' <= s[k] <= '9');
    }
}

/// An index is read from its digits, and from nothing but digits.
pub proof fn an_index_is_its_digits(s: Seq<char>, n: nat)
    ensures
        n <= usize::MAX ==> (index_named(s) == Some(n as usize) <==> reads_as(s, n)),
        index_named(s) is Some ==> reads_as(s, index_named(s)->0 as nat),
{
    let digits = if s.len() > 0 && s[0] == '+' {
        s.skip(1)
    } else {
        s
    };
    if s.len() > 0 {
        assert(s.skip(1) =~= s.drop_first());
    }
    if all_in_digits(digits) {
        read_on_is_the_value(digits, 0);
        assert(digits.skip(0) =~= digits);
        assert(digits_value(digits.take(0)) == 0);
        assert forall|i: int| 0 <= i < digits.len() implies is_digit(#[trigger] digits[i]) by {
            assert('0' <= digits[i] <= '9');
        }
        assert(all_digits(digits));
        assert(digits.take(0) =~= Seq::<char>::empty());
        assert(read_on(digits, 0) == digits_value(digits));
    } else {
        assert(!all_digits(digits)) by {
            if all_digits(digits) {
                assert forall|i: int| 0 <= i < digits.len() implies '0' <= #[trigger] digits[i]
                    <= '9' by {
                    assert(is_digit(digits[i]));
                }
            }
        }
    }
    if n <= usize::MAX && reads_as(s, n) {
        assert(all_in_digits(digits));
        assert(read_on(digits, 0) == n);
        assert(digits_value(digits) == n);
        assert(index_named(s) == Some(n as usize));
    }
    if n <= usize::MAX && index_named(s) == Some(n as usize) {
        assert(all_digits(digits));
        assert(digits_value(digits) == n);
        assert(reads_as(s, n));
    }
}

/// A text is a mail address exactly where it is a local part, an at sign and a
/// domain: the local part is not empty, the domain holds a full stop and no
/// further at sign, and no white space is anywhere.
pub proof fn what_a_mail_address_is(s: Seq<char>)
    ensures
        is_address(s) <==> (forall|i: int| 0 <= i < s.len() ==> !white_space(#[trigger] s[i]))
            && exists|local: Seq<char>, domain: Seq<char>|
            s == #[trigger] (local.push('@') + domain) && local.len() > 0 && !domain.contains('@')
                && domain.contains('.'),
{
    if is_address(s) {
        let at = choose|at: int|
            #[trigger] last_at_sign(s, at) && at > 0 && s.skip(at + 1).contains('.');
        let local = s.take(at);
        let domain = s.skip(at + 1);
        assert(s =~= local.push('@') + domain);
        assert forall|i: int| 0 <= i < domain.len() implies domain[i] != '@' by {
            assert(domain[i] == s[at + 1 + i]);
        }
        assert(!domain.contains('@'));
    }
    if exists|local: Seq<char>, domain: Seq<char>|
        s == #[trigger] (local.push('@') + domain) && local.len() > 0 && !domain.contains('@')
            && domain.contains('.') {
        let (local, domain) = choose|local: Seq<char>, domain: Seq<char>|
            s == #[trigger] (local.push('@') + domain) && local.len() > 0 && !domain.contains('@')
                && domain.contains('.');
        let at = local.len() as int;
        assert(s[at] == '@');
        assert forall|j: int| at < j < s.len() implies s[j] != '@' by {
            assert(s[j] == domain[j - at - 1]);
        }
        assert(last_at_sign(s, at));
        assert(s.skip(at + 1) =~= domain);
    }
}

/// How many bytes the contents of some attachments take together.
pub open spec fn contents(items: Seq<Json>) -> nat
    decreases items.len(),
{
    if items.len() == 0 {
        0
    } else {
        bytes_of(text_at(items[0], "content"@)).len() + contents(items.drop_first())
    }
}

proof fn totals_are_contents(items: Seq<Json>, n: int)
    requires
        0 <= n <= items.len(),
        forall|i: int| 0 <= i < items.len() ==> attachment_named(#[trigger] items[i]),
    ensures
        content_total(items, n) + contents(items.skip(n)) == content_total(
            items,
            items.len() as int,
        ),
    decreases items.len() - n,
{
    if n < items.len() {
        totals_are_contents(items, n + 1);
        assert(items.skip(n).drop_first() =~= items.skip(n + 1));
        assert(items.skip(n)[0] == items[n]);
        assert(attachment_named(items[n]));
    }
}

/// Attachments are taken where there are at most twenty, each with a name, a
/// type and a content, whose contents take at most 8 MiB together; and then each
/// with its own name, type and content, in their order. No attachments are none.
pub proof fn which_attachments_are_taken(p: Json)
    ensures
        ({
            let r = attachments_of(p);
            let list = p.at("attachments"@);
            let items = list->List_0;
            let fair = list is List && items.len() <= 20 && contents(items) <= 8388608 && (
            forall|i: int|
                0 <= i < items.len() ==> (#[trigger] items[i]).at("filename"@) is Text
                    && items[i].at("contentType"@) is Text && items[i].at("content"@) is Text);
            &&& list is Null ==> r == Ok::<Seq<Json>, &'static str>(Seq::empty())
            &&& !(list is Null) && !fair ==> r == Err::<Seq<Json>, &'static str>("invalid_params")
            &&& fair ==> {
                &&& r is Ok
                &&& r->Ok_0.len() == items.len()
                &&& forall|i: int|
                    #![trigger r->Ok_0[i]]
                    0 <= i < items.len() ==> {
                        &&& r->Ok_0[i].at("filename"@) == items[i].at("filename"@)
                        &&& r->Ok_0[i].at("content_type"@) == items[i].at("contentType"@)
                        &&& r->Ok_0[i].at("content"@) == items[i].at("content"@)
                    }
            }
        }),
{
    broadcast use member_of_push;

    reveal_strlit("filename");
    reveal_strlit("content_type");
    reveal_strlit("content");
    assert("filename"@.len() == 8 && "content_type"@.len() == 12 && "content"@.len() == 7);
    let list = p.at("attachments"@);
    if list is List {
        let items = list->List_0;
        if forall|i: int| 0 <= i < items.len() ==> attachment_named(#[trigger] items[i]) {
            totals_are_contents(items, 0);
            assert(items.skip(0) =~= items);
            assert forall|i: int| 0 <= i < items.len() implies (#[trigger] items[i]).at(
                "filename"@,
            ) is Text && items[i].at("contentType"@) is Text && items[i].at("content"@) is Text by {
                assert(attachment_named(items[i]));
            }
        } else if forall|i: int|
            0 <= i < items.len() ==> (#[trigger] items[i]).at("filename"@) is Text && items[i].at(
                "contentType"@,
            ) is Text && items[i].at("content"@) is Text {
            assert forall|i: int| 0 <= i < items.len() implies attachment_named(
                #[trigger] items[i],
            ) by {}
        }
    }
}

/// What the limits on parameters are.
pub proof fn the_limits_of_parameters()
    ensures
        MAX_ATTACHMENTS == 20,
        MAX_ATTACHMENT_TOTAL == 8 * 1024 * 1024,
{
}

} // verus!
