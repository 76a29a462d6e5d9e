//! An opt-in record of mail sent from this device, encrypted under the
//! mailbox's own token. Every key is derived from the token afresh and none is
//! stored, so that a token which was rotated opens nothing.
use vstd::prelude::*;
use vstd::string::*;

use crate::codec::{base64, base64_read, decode_standard, encode_standard, seq_of};
use crate::crypto::{
    aes256_cbc, aes256_cbc_read, authenticate, decrypt, encrypt, expand, hkdf_sha256, hmac_sha256,
    random_vector,
};
use crate::entries::{
    as_many_are_kept_as_may_be, distinct, is_kept, keep_newest, made_at, member_at_place, newer,
    newer_among, newest, place, place_is_first, place_put, position, put, put_in, put_is_found,
    put_keeps_names_distinct, rank_is_bounded, slot_is_within, the_newest_have_distinct_names,
    times, what_is_kept_is_found, what_is_kept_is_found_as_it_was,
};
use crate::json::{
    in_json, member, member_of_push, object_holds, record_of, Field, Json, Members, Number, Record,
    Value,
};
use crate::text::{
    an_ascii_byte_is_a_character, bytes_of, bytes_of_injective, no_byte_is_the_last,
};

verus! {

/// The most entries that are kept for one account.
pub const MAX_ENTRIES: usize = 20;

/// The most bytes of a file that is read.
pub const MAX_FILE: usize = 256 * 1024;

/// The most bytes that are remembered of one message.
pub const MAX_PLAINTEXT: usize = 1024 * 1024;

/// What the key for encryption is derived for.
pub const ENCRYPTION: &'static str = "omamail-lnemail-sent-enc-v1";

/// What the key for authentication is derived for.
pub const AUTHENTICATION: &'static str = "omamail-lnemail-sent-mac-v1";

/// The key that a token encrypts under.
pub open spec fn encryption_key(token: Seq<char>) -> Seq<u8> {
    hkdf_sha256(bytes_of(token), bytes_of(ENCRYPTION@))
}

/// The key that a token authenticates under.
pub open spec fn authentication_key(token: Seq<char>) -> Seq<u8> {
    hkdf_sha256(bytes_of(token), bytes_of(AUTHENTICATION@))
}

/// The two keys of a token: the one for encryption, and the one for
/// authentication.
pub fn keys(token: &str) -> (r: ([u8; 32], [u8; 32]))
    ensures
        r.0@ == encryption_key(token@),
        r.1@ == authentication_key(token@),
{
    (
        expand(token.as_bytes(), ENCRYPTION.as_bytes()),
        expand(token.as_bytes(), AUTHENTICATION.as_bytes()),
    )
}

/// The bytes of a text with a byte that no text has in the place of each NUL.
pub open spec fn without_nul(s: Seq<char>) -> Seq<u8> {
    bytes_of(s).map_values(
        |b: u8|
            if b == 0 {
                255u8
            } else {
                b
            },
    )
}

/// What is authenticated: the account and the payment hash, each closed by a
/// NUL, then the vector and the ciphertext. A NUL in the account or the hash
/// would close it early, and is written as a byte that no text has.
pub open spec fn framed(
    account: Seq<char>,
    hash: Seq<char>,
    iv: Seq<u8>,
    ciphertext: Seq<u8>,
) -> Seq<u8> {
    without_nul(account).push(0) + without_nul(hash).push(0) + iv + ciphertext
}

fn escaped(s: &str) -> (r: Vec<u8>)
    ensures
        r@ == without_nul(s@),
{
    let bytes = s.as_bytes();
    let mut out: Vec<u8> = Vec::new();
    for i in 0..bytes.len()
        invariant
            bytes@ == bytes_of(s@),
            out@.len() == i,
            forall|j: int| 0 <= j < i ==> #[trigger] out@[j] == without_nul(s@)[j],
    {
        let b: u8 = bytes[i];
        out.push(
            if b == 0 {
                255
            } else {
                b
            },
        );
    }
    assert(out@ =~= without_nul(s@));
    out
}

/// Frames what is authenticated.
pub fn frame(account: &str, hash: &str, iv: &[u8], ciphertext: &[u8]) -> (r: Vec<u8>)
    ensures
        r@ == framed(account@, hash@, iv@, ciphertext@),
{
    let mut out = escaped(account);
    out.push(0);
    out.append(&mut escaped(hash));
    out.push(0);
    out.extend_from_slice(iv);
    out.extend_from_slice(ciphertext);
    assert(out@ =~= framed(account@, hash@, iv@, ciphertext@));
    out
}

/// The stamp that a sealed entry carries.
pub open spec fn stamp(
    token: Seq<char>,
    account: Seq<char>,
    hash: Seq<char>,
    iv: Seq<u8>,
    ciphertext: Seq<u8>,
) -> Seq<u8> {
    hmac_sha256(authentication_key(token), framed(account, hash, iv, ciphertext))
}

/// The stamp under a key. The account and the payment hash are folded into it,
/// so that a ciphertext copied from one entry, or one mailbox, into another's
/// slot fails verification.
pub fn tag(mac_key: &[u8; 32], account: &str, hash: &str, iv: &[u8], ciphertext: &[u8]) -> (r: Vec<
    u8,
>)
    ensures
        r@ == hmac_sha256(mac_key@, framed(account@, hash@, iv@, ciphertext@)),
        r@.len() == 32,
{
    let message = frame(account, hash, iv, ciphertext);
    authenticate(mac_key, message.as_slice())
}

proof fn nul_marks_the_end(a: Seq<u8>, b: Seq<u8>, x: Seq<u8>, y: Seq<u8>)
    requires
        !a.contains(0),
        !b.contains(0),
        a.push(0) + x == b.push(0) + y,
    ensures
        a == b,
        x == y,
{
    let left = a.push(0) + x;
    let right = b.push(0) + y;
    if a.len() < b.len() {
        assert(left[a.len() as int] == 0);
        assert(right[a.len() as int] == b[a.len() as int]);
        assert(b.contains(b[a.len() as int]));
    } else if b.len() < a.len() {
        assert(right[b.len() as int] == 0);
        assert(left[b.len() as int] == a[b.len() as int]);
        assert(a.contains(a[b.len() as int]));
    } else {
        assert forall|i: int| 0 <= i < a.len() implies a[i] == b[i] by {
            assert(left[i] == a[i]);
            assert(right[i] == b[i]);
        }
        assert(a =~= b);
        assert(left.skip(a.len() as int + 1) =~= x);
        assert(right.skip(a.len() as int + 1) =~= y);
    }
}

proof fn nul_is_kept_out(a: Seq<char>, b: Seq<char>)
    ensures
        !without_nul(a).contains(0),
        !without_nul(b).contains(0),
        without_nul(a) == without_nul(b) ==> a == b,
{
    no_byte_is_the_last(a);
    no_byte_is_the_last(b);
    if without_nul(a) == without_nul(b) {
        assert(bytes_of(a).len() == without_nul(a).len());
        assert(bytes_of(b).len() == without_nul(b).len());
        assert forall|i: int| 0 <= i < bytes_of(a).len() implies bytes_of(a)[i]
            == bytes_of(b)[i] by {
            assert(without_nul(a)[i] == without_nul(b)[i]);
            assert(bytes_of(a).contains(bytes_of(a)[i]));
            assert(bytes_of(b).contains(bytes_of(b)[i]));
        }
        assert(bytes_of(a) =~= bytes_of(b));
        bytes_of_injective(a, b);
    }
}

/// An account and a payment hash without a NUL are stamped as they are.
pub proof fn names_without_nul_are_framed_as_they_are(
    account: Seq<char>,
    hash: Seq<char>,
    iv: Seq<u8>,
    ciphertext: Seq<u8>,
)
    requires
        !bytes_of(account).contains(0),
        !bytes_of(hash).contains(0),
    ensures
        framed(account, hash, iv, ciphertext) == bytes_of(account).push(0) + bytes_of(hash).push(0)
            + iv + ciphertext,
{
    assert forall|i: int| 0 <= i < bytes_of(account).len() implies bytes_of(account)[i]
        == without_nul(account)[i] by {
        assert(bytes_of(account).contains(bytes_of(account)[i]));
    }
    assert forall|i: int| 0 <= i < bytes_of(hash).len() implies bytes_of(hash)[i] == without_nul(
        hash,
    )[i] by {
        assert(bytes_of(hash).contains(bytes_of(hash)[i]));
    }
    assert(without_nul(account) =~= bytes_of(account));
    assert(without_nul(hash) =~= bytes_of(hash));
}

/// What is stamped names its account, its payment hash, its vector and its
/// ciphertext: where any of them differs, something else is stamped.
pub proof fn what_is_framed_is_told_apart(
    account: Seq<char>,
    hash: Seq<char>,
    iv: Seq<u8>,
    ciphertext: Seq<u8>,
    other_account: Seq<char>,
    other_hash: Seq<char>,
    other_iv: Seq<u8>,
    other_ciphertext: Seq<u8>,
)
    requires
        iv.len() == 16,
        other_iv.len() == 16,
        framed(account, hash, iv, ciphertext) == framed(
            other_account,
            other_hash,
            other_iv,
            other_ciphertext,
        ),
    ensures
        account == other_account,
        hash == other_hash,
        iv == other_iv,
        ciphertext == other_ciphertext,
{
    let x = without_nul(hash).push(0) + iv + ciphertext;
    let y = without_nul(other_hash).push(0) + other_iv + other_ciphertext;
    nul_is_kept_out(account, other_account);
    nul_is_kept_out(hash, other_hash);
    assert(framed(account, hash, iv, ciphertext) =~= without_nul(account).push(0) + x);
    assert(framed(other_account, other_hash, other_iv, other_ciphertext) =~= without_nul(
        other_account,
    ).push(0) + y);
    nul_marks_the_end(without_nul(account), without_nul(other_account), x, y);
    assert(x =~= without_nul(hash).push(0) + (iv + ciphertext));
    assert(y =~= without_nul(other_hash).push(0) + (other_iv + other_ciphertext));
    nul_marks_the_end(
        without_nul(hash),
        without_nul(other_hash),
        iv + ciphertext,
        other_iv + other_ciphertext,
    );
    assert((iv + ciphertext).take(16) =~= iv);
    assert((other_iv + other_ciphertext).take(16) =~= other_iv);
    assert((iv + ciphertext).skip(16) =~= ciphertext);
    assert((other_iv + other_ciphertext).skip(16) =~= other_ciphertext);
}

/// A sealed entry.
pub open spec fn sealed_entry(iv: Seq<u8>, ciphertext: Seq<u8>, mac: Seq<u8>) -> Record {
    Seq::empty().push(("iv"@, Json::Text(base64(iv)))).push(
        ("ciphertext"@, Json::Text(base64(ciphertext))),
    ).push(("mac"@, Json::Text(base64(mac))))
}

/// What a message is sealed as under a vector.
pub open spec fn sealed(
    iv: Seq<u8>,
    account: Seq<char>,
    hash: Seq<char>,
    token: Seq<char>,
    plaintext: Seq<u8>,
) -> Record {
    let ciphertext = aes256_cbc(encryption_key(token), iv, plaintext);
    sealed_entry(iv, ciphertext, stamp(token, account, hash, iv, ciphertext))
}

/// The bytes that a field holds in base64.
pub open spec fn bytes_at(entry: Json, key: Seq<char>) -> Option<Seq<u8>> {
    match entry.at(key) {
        Json::Text(s) => base64_read(s),
        _ => None,
    }
}

/// What an entry opens to: its plaintext, where its stamp is the one for this
/// account, this payment hash and this token.
pub open spec fn opened(
    account: Seq<char>,
    hash: Seq<char>,
    token: Seq<char>,
    entry: Json,
) -> Option<Seq<u8>> {
    match (bytes_at(entry, "iv"@), bytes_at(entry, "ciphertext"@), bytes_at(entry, "mac"@)) {
        (Some(iv), Some(ciphertext), Some(mac)) => if iv.len() == 16 && mac == stamp(
            token,
            account,
            hash,
            iv,
            ciphertext,
        ) {
            aes256_cbc_read(encryption_key(token), iv, ciphertext)
        } else {
            None
        },
        _ => None,
    }
}

/// An entry that is copied into another slot fails verification there: where
/// it opens in two slots under one token, what is stamped for the one and what
/// is stamped for the other differ and yet have one HMAC under the token's key.
pub proof fn an_entry_opens_in_one_slot(
    account: Seq<char>,
    hash: Seq<char>,
    other_account: Seq<char>,
    other_hash: Seq<char>,
    token: Seq<char>,
    entry: Json,
)
    requires
        account != other_account || hash != other_hash,
        opened(account, hash, token, entry) is Some,
        opened(other_account, other_hash, token, entry) is Some,
    ensures
        ({
            let iv = bytes_at(entry, "iv"@)->0;
            let ciphertext = bytes_at(entry, "ciphertext"@)->0;
            let x = framed(account, hash, iv, ciphertext);
            let y = framed(other_account, other_hash, iv, ciphertext);
            let key = authentication_key(token);
            x != y && hmac_sha256(key, x) == hmac_sha256(key, y)
        }),
{
    let iv = bytes_at(entry, "iv"@)->0;
    let ciphertext = bytes_at(entry, "ciphertext"@)->0;
    let x = framed(account, hash, iv, ciphertext);
    let y = framed(other_account, other_hash, iv, ciphertext);
    if x == y {
        what_is_framed_is_told_apart(
            account,
            hash,
            iv,
            ciphertext,
            other_account,
            other_hash,
            iv,
            ciphertext,
        );
    }
}

proof fn sealed_fields(iv: Seq<u8>, ciphertext: Seq<u8>, mac: Seq<u8>)
    ensures
        member(sealed_entry(iv, ciphertext, mac), "iv"@) == Some(Json::Text(base64(iv))),
        member(sealed_entry(iv, ciphertext, mac), "ciphertext"@) == Some(
            Json::Text(base64(ciphertext)),
        ),
        member(sealed_entry(iv, ciphertext, mac), "mac"@) == Some(Json::Text(base64(mac))),
        member(sealed_entry(iv, ciphertext, mac), "at"@) is None,
        "at"@ != "iv"@,
        "at"@ != "ciphertext"@,
        "at"@ != "mac"@,
{
    broadcast use member_of_push;

    reveal_strlit("iv");
    reveal_strlit("ciphertext");
    reveal_strlit("mac");
    reveal_strlit("at");
    assert("iv"@.len() == 2 && "ciphertext"@.len() == 10 && "mac"@.len() == 3);
    assert("at"@[0] == 'a' && "iv"@[0] == 'i' && "at"@.len() == 2);
}

/// Seals a message under a vector, so that it opens again under the same
/// account, payment hash and token, and under others only where their stamp is
/// the same.
pub fn seal_with(
    iv: &[u8; 16],
    account: &str,
    hash: &str,
    token: &str,
    plaintext: &[u8],
) -> (r: Members)
    ensures
        r@ == sealed(iv@, account@, hash@, token@, plaintext@),
        opened(account@, hash@, token@, Json::Record(r@)) == Some(plaintext@),
        forall|a: Seq<char>, h: Seq<char>, t: Seq<char>|
            #[trigger] opened(a, h, t, Json::Record(r@)) is Some ==> ({
                let ciphertext = aes256_cbc(encryption_key(token@), iv@, plaintext@);
                stamp(t, a, h, iv@, ciphertext) == stamp(token@, account@, hash@, iv@, ciphertext)
            }),
{
    let (enc_key, mac_key) = keys(token);
    let ciphertext = encrypt(&enc_key, iv, plaintext);
    let mac = tag(&mac_key, account, hash, iv.as_slice(), ciphertext.as_slice());
    proof {
        sealed_fields(iv@, ciphertext@, mac@);
    }
    let iv_text = encode_standard(iv.as_slice());
    let ciphertext_text = encode_standard(ciphertext.as_slice());
    let mac_text = encode_standard(mac.as_slice());
    Members::new().with("iv", Value::text(iv_text.as_str())).with(
        "ciphertext",
        Value::text(ciphertext_text.as_str()),
    ).with("mac", Value::text(mac_text.as_str()))
}

/// Whether a vector, or none, is what chance gave when it was asked for one.
pub closed spec fn came_of_chance(iv: Option<[u8; 16]>) -> bool {
    call_ensures(random_vector, (), iv)
}

/// Seals a message under a vector of chance, where chance gives one.
pub fn seal(account: &str, hash: &str, token: &str, plaintext: &[u8]) -> (r: Result<
    Members,
    &'static str,
>)
    ensures
        match r {
            Ok(entry) => {
                &&& exists|iv: Seq<u8>|
                    iv.len() == 16 && entry@ == #[trigger] sealed(
                        iv,
                        account@,
                        hash@,
                        token@,
                        plaintext@,
                    )
                &&& opened(account@, hash@, token@, Json::Record(entry@)) == Some(plaintext@)
            },
            Err(e) => e == "lnemail_sent_cache_unavailable",
        },
        exists|iv: Option<[u8; 16]>|
            #[trigger] came_of_chance(iv) && match (iv, r) {
                (Some(iv), Ok(entry)) => entry@ == sealed(
                    iv@,
                    account@,
                    hash@,
                    token@,
                    plaintext@,
                ),
                (None, Err(_)) => true,
                _ => false,
            },
{
    let chance = random_vector;
    let iv = chance();
    assert(came_of_chance(iv));
    match iv {
        Some(iv) => Ok(seal_with(&iv, account, hash, token, plaintext)),
        None => Err("lnemail_sent_cache_unavailable"),
    }
}

/// Whether two runs of bytes agree as far as the shorter one goes.
pub open spec fn agree(a: Seq<u8>, b: Seq<u8>) -> bool {
    forall|i: int| 0 <= i < a.len() && i < b.len() ==> a[i] == b[i]
}

/// Whether two runs of bytes agree as far as the shorter one goes, looking at
/// all of them whatever is found.
pub fn constant_time_eq(a: &[u8], b: &[u8]) -> (r: bool)
    ensures
        r == agree(a@, b@),
{
    let n: usize = if a.len() < b.len() {
        a.len()
    } else {
        b.len()
    };
    let mut acc: u8 = 0;
    for i in 0..n
        invariant
            n <= a@.len(),
            n <= b@.len(),
            (acc == 0) == (forall|j: int| 0 <= j < i ==> a@[j] == b@[j]),
    {
        let x: u8 = a[i];
        let y: u8 = b[i];
        assert((acc | (x ^ y)) == 0 <==> (acc == 0 && x == y)) by (bit_vector);
        acc = acc | (x ^ y);
    }
    acc == 0
}

fn read_bytes(entry: &Value, key: &str) -> (r: Option<Vec<u8>>)
    ensures
        seq_of(r) == bytes_at(entry@, key@),
{
    match entry.get(key) {
        Some(value) => match value.as_str() {
            Some(s) => decode_standard(s),
            None => None,
        },
        None => None,
    }
}

/// Opens an entry. None covers every reason for which it cannot be read back:
/// a field that is missing or is not base64, or a stamp that is not the one
/// for this account, this payment hash and this token.
pub fn open(account: &str, hash: &str, token: &str, entry: &Value) -> (r: Option<Vec<u8>>)
    ensures
        seq_of(r) == opened(account@, hash@, token@, entry@),
{
    let iv = match read_bytes(entry, "iv") {
        Some(bytes) => bytes,
        None => return None,
    };
    let ciphertext = match read_bytes(entry, "ciphertext") {
        Some(bytes) => bytes,
        None => return None,
    };
    let mac = match read_bytes(entry, "mac") {
        Some(bytes) => bytes,
        None => return None,
    };
    if iv.len() != 16 {
        return None;
    }
    let (enc_key, mac_key) = keys(token);
    let expected = tag(&mac_key, account, hash, iv.as_slice(), ciphertext.as_slice());
    if expected.len() != mac.len() || !constant_time_eq(expected.as_slice(), mac.as_slice()) {
        return None;
    }
    assert(mac@ =~= expected@);
    decrypt(&enc_key, iv.as_slice(), ciphertext.as_slice())
}

/// A digit of base sixteen.
pub open spec fn hex_digit(d: u8) -> char {
    if d < 10 {
        (0x30 + d) as char
    } else {
        (0x61 + d - 10) as char
    }
}

/// Whether a byte stands in a file name as it is.
pub open spec fn plain_byte(b: u8) -> bool {
    ||| 0x30 <= b <= 0x39
    ||| 0x41 <= b <= 0x5a
    ||| 0x61 <= b <= 0x7a
    ||| b == 0x2e
    ||| b == 0x2d
    ||| b == 0x40
    ||| b == 0x3a
}

/// What stands in a file name for a byte: the byte, or an underscore and its
/// two digits of base sixteen.
pub open spec fn name_piece(b: u8) -> Seq<char> {
    if plain_byte(b) {
        Seq::empty().push(b as char)
    } else {
        Seq::empty().push('_').push(hex_digit(b / 16)).push(hex_digit(b % 16))
    }
}

/// What stands in a file name for a run of bytes.
pub open spec fn name_stem(bytes: Seq<u8>) -> Seq<char>
    decreases bytes.len(),
{
    if bytes.len() == 0 {
        Seq::empty()
    } else {
        name_piece(bytes[0]) + name_stem(bytes.drop_first())
    }
}

/// The file that an account in lower case has.
pub open spec fn file_named(lower: Seq<char>) -> Seq<char> {
    name_stem(bytes_of(lower)) + ".json"@
}

/// Whether no capital letter of ASCII stands in a text.
pub open spec fn no_capital(s: Seq<char>) -> bool {
    forall|i: int| 0 <= i < s.len() ==> !('A' <= #[trigger] s[i] <= 'Z')
}

/// What `str::to_lowercase` makes of a string.
pub uninterp spec fn lowercase(s: Seq<char>) -> Seq<char>;

/// `str::to_lowercase`: the string in lower case, as Unicode has it, and so
/// without a capital letter of ASCII.
pub assume_specification[ str::to_lowercase ](s: &str) -> (r: String)
    ensures
        r@ == lowercase(s@),
        no_capital(r@),
;

fn hex(d: u8) -> (r: char)
    requires
        d < 16,
    ensures
        r == hex_digit(d),
{
    if d < 10 {
        (0x30 + d) as char
    } else {
        (0x61 + (d - 10)) as char
    }
}

fn is_plain_byte(b: u8) -> (r: bool)
    ensures
        r == plain_byte(b),
{
    (0x30 <= b && b <= 0x39) || (0x41 <= b && b <= 0x5a) || (0x61 <= b && b <= 0x7a) || b == 0x2e
        || b == 0x2d || b == 0x40 || b == 0x3a
}

/// The name of the file that an account in lower case has.
pub fn safe_name_from(lower: &str) -> (r: String)
    ensures
        r@ == file_named(lower@),
{
    let bytes = lower.as_bytes();
    let mut out = String::new();
    assert(bytes@.skip(0) =~= bytes@);
    for i in 0..bytes.len()
        invariant
            out@ + name_stem(bytes@.skip(i as int)) =~= name_stem(bytes@),
    {
        let b: u8 = bytes[i];
        let ghost before = out@;
        if is_plain_byte(b) {
            out.push(b as char);
        } else {
            out.push('_');
            out.push(hex(b / 16));
            out.push(hex(b % 16));
        }
        proof {
            assert(bytes@.skip(i as int).drop_first() =~= bytes@.skip(i + 1));
            assert(bytes@.skip(i as int)[0] == b);
            assert(out@ =~= before + name_piece(b));
            assert(before + (name_piece(b) + name_stem(bytes@.skip(i + 1))) =~= (before
                + name_piece(b)) + name_stem(bytes@.skip(i + 1)));
        }
    }
    assert(bytes@.skip(bytes@.len() as int).len() == 0);
    assert(out@ =~= name_stem(bytes@));
    out.append(".json");
    out
}

/// The name of the file that an account has: letters in lower case, digits and
/// `.-@:_`, and `.json` behind them. Two accounts share it exactly where they
/// are the same in lower case.
pub fn safe_name(account: &str) -> (r: String)
    ensures
        r@ == file_named(lowercase(account@)),
        names_a_file(r@),
{
    let lower = account.to_lowercase();
    proof {
        a_file_name_names_a_file(lower@);
    }
    safe_name_from(lower.as_str())
}

proof fn stems_tell_bytes_apart(a: Seq<u8>, b: Seq<u8>)
    requires
        name_stem(a) == name_stem(b),
    ensures
        a == b,
    decreases a.len(),
{
    if a.len() == 0 {
        if b.len() > 0 {
            assert(name_stem(b).len() >= name_piece(b[0]).len());
        }
        assert(a =~= b);
    } else if b.len() == 0 {
        assert(name_stem(a).len() >= name_piece(a[0]).len());
    } else {
        let s = name_stem(a);
        let t = name_stem(b);
        let p = name_piece(a[0]);
        let q = name_piece(b[0]);
        assert(s[0] == p[0] && t[0] == q[0]);
        if plain_byte(a[0]) {
            assert(plain_byte(b[0]));
        } else {
            assert(!plain_byte(b[0]));
            assert(s[1] == p[1] && t[1] == q[1]);
            assert(s[2] == p[2] && t[2] == q[2]);
            assert(a[0] / 16 == b[0] / 16);
            assert(a[0] % 16 == b[0] % 16);
        }
        assert(a[0] == b[0]);
        assert(s.skip(p.len() as int) =~= name_stem(a.drop_first()));
        assert(t.skip(p.len() as int) =~= name_stem(b.drop_first()));
        stems_tell_bytes_apart(a.drop_first(), b.drop_first());
        assert(a =~= Seq::empty().push(a[0]) + a.drop_first());
        assert(b =~= Seq::empty().push(b[0]) + b.drop_first());
    }
}

/// Two accounts share a file exactly where they are the same in lower case: no
/// two come to share one by how their names are written.
pub proof fn accounts_share_a_file_only_by_case(account: Seq<char>, other: Seq<char>)
    ensures
        file_named(lowercase(account)) == file_named(lowercase(other)) <==> lowercase(account)
            == lowercase(other),
{
    if file_named(lowercase(account)) == file_named(lowercase(other)) {
        files_tell_accounts_apart(lowercase(account), lowercase(other));
    }
}

proof fn files_tell_accounts_apart(lower: Seq<char>, other: Seq<char>)
    requires
        file_named(lower) == file_named(other),
    ensures
        lower == other,
{
    let s = name_stem(bytes_of(lower));
    let t = name_stem(bytes_of(other));
    let n = ".json"@.len();
    assert(s.len() + n == file_named(lower).len());
    assert(t.len() + n == file_named(other).len());
    assert(file_named(lower).take(s.len() as int) =~= s);
    assert(file_named(other).take(s.len() as int) =~= t);
    stems_tell_bytes_apart(bytes_of(lower), bytes_of(other));
    bytes_of_injective(lower, other);
}

/// Whether a character may stand in the name of a file: a letter of ASCII in
/// lower case, a digit, or one of `.`, `-`, `@`, `:` and `_`.
pub open spec fn name_char(c: char) -> bool {
    ||| '0' <= c <= '9'
    ||| 'a' <= c <= 'z'
    ||| c == '.'
    ||| c == '-'
    ||| c == '@'
    ||| c == ':'
    ||| c == '_'
}

/// Whether a text names a file in the directory it is looked for in: it holds
/// nothing but such characters, so no separator, and ends in `.json`, so it is
/// neither the directory nor the one above.
pub open spec fn names_a_file(name: Seq<char>) -> bool {
    &&& forall|i: int| 0 <= i < name.len() ==> name_char(#[trigger] name[i])
    &&& name.len() >= 5
    &&& name.skip(name.len() - 5) == ".json"@
}

proof fn stem_chars(bytes: Seq<u8>)
    requires
        forall|i: int| 0 <= i < bytes.len() ==> !(0x41 <= #[trigger] bytes[i] <= 0x5a),
    ensures
        forall|i: int| 0 <= i < name_stem(bytes).len() ==> name_char(#[trigger] name_stem(bytes)[i]),
    decreases bytes.len(),
{
    if bytes.len() > 0 {
        let rest = bytes.drop_first();
        assert forall|i: int| 0 <= i < rest.len() implies !(0x41 <= #[trigger] rest[i] <= 0x5a) by {
            assert(rest[i] == bytes[i + 1]);
        }
        stem_chars(rest);
        let p = name_piece(bytes[0]);
        assert forall|i: int| 0 <= i < name_stem(bytes).len() implies name_char(
            #[trigger] name_stem(bytes)[i],
        ) by {
            if i < p.len() {
                assert(name_stem(bytes)[i] == p[i]);
            } else {
                assert(name_stem(bytes)[i] == name_stem(rest)[i - p.len()]);
            }
        }
    }
}

/// The file of an account in lower case lies in the directory it is looked for
/// in.
pub proof fn a_file_name_names_a_file(lower: Seq<char>)
    requires
        no_capital(lower),
    ensures
        names_a_file(file_named(lower)),
{
    reveal_strlit(".json");
    let bytes = bytes_of(lower);
    assert forall|i: int| 0 <= i < bytes.len() implies !(0x41 <= #[trigger] bytes[i] <= 0x5a) by {
        if bytes[i] < 128 {
            let k = an_ascii_byte_is_a_character(lower, i);
            assert(!('A' <= lower[k] <= 'Z'));
        }
    }
    stem_chars(bytes);
    let s = name_stem(bytes);
    assert(file_named(lower).skip(file_named(lower).len() - 5) =~= ".json"@);
    assert forall|i: int| 0 <= i < file_named(lower).len() implies name_char(
        #[trigger] file_named(lower)[i],
    ) by {
        if i < s.len() {
            assert(file_named(lower)[i] == s[i]);
        } else {
            assert(file_named(lower)[i] == ".json"@[i - s.len()]);
        }
    }
}

/// A store without entries.
pub open spec fn fresh_store() -> Record {
    Seq::empty().push(("version"@, Json::Integer(1))).push(
        ("entries"@, Json::Record(Seq::empty())),
    )
}

/// Whether a file's contents are a store: of the version known here, and with
/// entries.
pub open spec fn is_store(contents: Json) -> bool {
    contents.at("version"@) == Json::Integer(1) && contents.at("entries"@) is Record
}

/// The store that a file's contents are, or one without entries.
pub open spec fn store_of(contents: Option<Json>) -> Json {
    match contents {
        Some(value) => if is_store(value) {
            value
        } else {
            Json::Record(fresh_store())
        },
        None => Json::Record(fresh_store()),
    }
}

/// The entries of a store.
pub open spec fn entries_of(store: Json) -> Record {
    match store.at("entries"@) {
        Json::Record(entries) => entries,
        _ => Seq::empty(),
    }
}

/// What the contents of a file are, where there are any.
pub open spec fn contents_of(contents: Option<Value>) -> Option<Json> {
    match contents {
        Some(value) => Some(value@),
        None => None,
    }
}

/// Whether a file of this length is read.
pub open spec fn is_readable(length: nat) -> bool {
    length <= MAX_FILE
}

/// Whether a file of this length is read.
pub fn readable(length: u64) -> (r: bool)
    ensures
        r == is_readable(length as nat),
{
    length <= MAX_FILE as u64
}

/// Whether a file of this length is written, and why not.
pub open spec fn write_refused(length: nat) -> Option<&'static str> {
    if length > MAX_FILE {
        Some("lnemail_sent_cache_unavailable")
    } else {
        None
    }
}

/// Refuses to write a file that would not be read back. The file that is there
/// then stays as it is.
pub fn writable(length: u64) -> (r: Result<(), &'static str>)
    ensures
        r == (match write_refused(length as nat) {
            Some(e) => Err(e),
            None => Ok::<(), &'static str>(()),
        }),
{
    if length > MAX_FILE as u64 {
        return Err("lnemail_sent_cache_unavailable");
    }
    Ok(())
}

/// What is written is read back: no file is written that is too long to be
/// read, and none that could be read is refused.
pub proof fn what_is_written_is_readable(length: nat)
    ensures
        write_refused(length) is None <==> is_readable(length),
{
}

fn empty_store() -> (r: Value)
    ensures
        r@ == Json::Record(fresh_store()),
{
    let entries = Members::new().object();
    Members::new().with("version", Value::unsigned(1)).with("entries", entries).object()
}

/// A store without entries is a store.
proof fn fresh_store_is_store()
    ensures
        is_store(Json::Record(fresh_store())),
        entries_of(Json::Record(fresh_store())) == Seq::<(Seq<char>, Json)>::empty(),
{
    broadcast use member_of_push;

    reveal_strlit("version");
    reveal_strlit("entries");
    assert("version"@[0] == 'v' && "entries"@[0] == 'e');
}

fn holds_store(value: &Value) -> (r: bool)
    ensures
        r == is_store(value@),
{
    let known = match value.get("version") {
        Some(Value::Number(Number::Unsigned(n))) => *n == 1,
        Some(Value::Number(Number::Negative(n))) => *n == 1,
        _ => false,
    };
    let filled = match value.get("entries") {
        Some(entries) => entries.as_object().is_some(),
        None => false,
    };
    known && filled
}

/// The store that a file's contents are. A file that was not there, was too
/// long or did not parse has none, and what is not a store of the version
/// known here counts as one without entries.
pub fn load(contents: Option<Value>) -> (r: Value)
    ensures
        r@ == store_of(contents_of(contents)),
        is_store(r@),
{
    proof {
        fresh_store_is_store();
    }
    match contents {
        Some(value) => if holds_store(&value) {
            value
        } else {
            empty_store()
        },
        None => empty_store(),
    }
}

/// The entries after one has been put in, no more than may be kept.
pub open spec fn entries_after(entries: Record, hash: Seq<char>, entry: Json) -> Record {
    newest(put(entries, hash, entry), MAX_ENTRIES as nat)
}

/// A sealed entry with the time it was made at.
pub open spec fn stamped(sealed: Record, now: u64) -> Json {
    Json::Record(sealed.push(("at"@, Json::Integer(now as int))))
}

/// The store after an entry has been put in.
pub open spec fn store_after(store: Json, hash: Seq<char>, sealed: Record, now: u64) -> Json {
    match store {
        Json::Record(fields) => Json::Record(
            fields.update(
                place(fields, "entries"@),
                (
                    "entries"@,
                    Json::Record(entries_after(entries_of(store), hash, stamped(sealed, now))),
                ),
            ),
        ),
        _ => store,
    }
}

/// Puts a sealed entry into a store under its payment hash, and drops the
/// oldest beyond those that are kept.
pub fn enter(store: Value, hash: &str, sealed: Members, now: u64) -> (r: Value)
    requires
        is_store(store@),
    ensures
        r@ == store_after(store@, hash@, sealed@, now),
{
    let ghost whole = store@;
    let ghost entry = stamped(sealed@, now);
    let value = sealed.with("at", Value::unsigned(now)).object();
    match store {
        Value::Object(fields) => {
            proof {
                object_holds(fields);
            }
            let ghost all = record_of(fields@);
            let mut fields = fields;
            let i: usize = position(&fields, "entries");
            proof {
                member_at_place(all, "entries"@);
                place_is_first(all, "entries"@);
            }
            let field = fields.remove(i);
            assert(field@ == all[i as int]);
            match field.value {
                Value::Object(entries) => {
                    proof {
                        object_holds(entries);
                        assert(record_of(entries@) == entries_of(whole));
                    }
                    let kept = keep_newest(put_in(entries, hash, value), MAX_ENTRIES);
                    proof {
                        object_holds(kept);
                    }
                    let replaced = Field { name: "entries".to_owned(), value: Value::Object(kept) };
                    fields.insert(i, replaced);
                    proof {
                        object_holds(fields);
                        assert(record_of(fields@) =~= all.update(
                            i as int,
                            ("entries"@, Json::Record(
                                entries_after(entries_of(whole), hash@, entry),
                            )),
                        ));
                    }
                    Value::Object(fields)
                },
                other => {
                    fields.insert(i, Field { name: field.name, value: other });
                    Value::Object(fields)
                },
            }
        },
        other => other,
    }
}

/// Whether a message may be remembered, and why not.
pub open spec fn refused(
    account: Seq<char>,
    hash: Seq<char>,
    token: Seq<char>,
    length: nat,
) -> Option<&'static str> {
    if account.len() == 0 || hash.len() == 0 || token.len() == 0 {
        Some("invalid_params")
    } else if length > MAX_PLAINTEXT {
        Some("lnemail_sent_cache_unavailable")
    } else {
        None
    }
}

/// What is recalled from a file's contents.
pub open spec fn recalled(
    account: Seq<char>,
    hash: Seq<char>,
    token: Seq<char>,
    contents: Option<Json>,
) -> Option<Seq<u8>> {
    if account.len() == 0 || hash.len() == 0 || token.len() == 0 {
        None
    } else {
        match member(entries_of(store_of(contents)), hash) {
            Some(entry) => opened(account, hash, token, entry),
            None => None,
        }
    }
}

/// What the file is to hold once a message has been remembered under a vector.
/// There is none where chance gave none.
pub open spec fn remembered(
    iv: Option<Seq<u8>>,
    account: Seq<char>,
    hash: Seq<char>,
    token: Seq<char>,
    plaintext: Seq<u8>,
    contents: Option<Json>,
    now: u64,
) -> Result<Json, &'static str> {
    match (refused(account, hash, token, plaintext.len()), iv) {
        (Some(e), _) => Err(e),
        (None, None) => Err("lnemail_sent_cache_unavailable"),
        (None, Some(iv)) => Ok(
            store_after(
                store_of(contents),
                hash,
                sealed(iv, account, hash, token, plaintext),
                now,
            ),
        ),
    }
}

/// The bytes of a vector, where there is one.
pub open spec fn vector_of(iv: Option<[u8; 16]>) -> Option<Seq<u8>> {
    match iv {
        Some(iv) => Some(iv@),
        None => None,
    }
}

/// Why a message may not be remembered, where it may not be.
pub fn refusal(account: &str, hash: &str, token: &str, plaintext: &[u8]) -> (r: Option<
    &'static str,
>)
    ensures
        r == refused(account@, hash@, token@, plaintext@.len()),
{
    if account.is_empty() || hash.is_empty() || token.is_empty() {
        Some("invalid_params")
    } else if plaintext.len() > MAX_PLAINTEXT {
        Some("lnemail_sent_cache_unavailable")
    } else {
        None
    }
}

proof fn stamped_opens_as_sealed(
    account: Seq<char>,
    hash: Seq<char>,
    token: Seq<char>,
    iv: Seq<u8>,
    ciphertext: Seq<u8>,
    mac: Seq<u8>,
    now: u64,
)
    ensures
        opened(account, hash, token, stamped(sealed_entry(iv, ciphertext, mac), now)) == opened(
            account,
            hash,
            token,
            Json::Record(sealed_entry(iv, ciphertext, mac)),
        ),
        made_at(stamped(sealed_entry(iv, ciphertext, mac), now)) == now,
{
    broadcast use member_of_push;

    sealed_fields(iv, ciphertext, mac);
}

/// An entry that was put into a store is among the store's entries, and the
/// store stays one.
pub proof fn what_is_entered_is_in_the_store(
    store: Json,
    hash: Seq<char>,
    sealed: Record,
    now: u64,
)
    requires
        is_store(store),
    ensures
        is_store(store_after(store, hash, sealed, now)),
        entries_of(store_after(store, hash, sealed, now)) == entries_after(
            entries_of(store),
            hash,
            stamped(sealed, now),
        ),
{
    reveal_strlit("version");
    reveal_strlit("entries");
    assert("version"@[0] == 'v' && "entries"@[0] == 'e');
    let fields = store->Record_0;
    let p = place(fields, "entries"@);
    place_is_first(fields, "entries"@);
    member_at_place(fields, "entries"@);
    let v = Json::Record(entries_after(entries_of(store), hash, stamped(sealed, now)));
    assert(store_after(store, hash, sealed, now) == Json::Record(put(fields, "entries"@, v)));
    put_is_found(fields, "entries"@, v);
    assert(member(put(fields, "entries"@, v), "version"@) == member(fields, "version"@));
}

/// Whether a message is still there after it was put in: fewer than may be
/// kept are newer than it.
pub open spec fn stays(
    contents: Option<Json>,
    hash: Seq<char>,
    sealed: Record,
    now: u64,
) -> bool {
    is_kept(
        put(entries_of(store_of(contents)), hash, stamped(sealed, now)),
        MAX_ENTRIES as nat,
        hash,
    )
}

proof fn kept_entry_is_found(entries: Record, hash: Seq<char>, entry: Json)
    requires
        is_kept(put(entries, hash, entry), MAX_ENTRIES as nat, hash),
    ensures
        member(entries_after(entries, hash, entry), hash) == Some(entry),
{
    put_is_found(entries, hash, entry);
    what_is_kept_is_found(put(entries, hash, entry), MAX_ENTRIES as nat, hash);
}

/// What the file is to hold once a message has been remembered under a vector.
/// The message is recalled from it, where it stays, and under another token
/// only where that makes the same stamp.
pub fn remember_with(
    iv: Option<[u8; 16]>,
    account: &str,
    hash: &str,
    token: &str,
    plaintext: &[u8],
    contents: Option<Value>,
    now: u64,
) -> (r: Result<Value, &'static str>)
    ensures
        in_json(r) == remembered(
            vector_of(iv),
            account@,
            hash@,
            token@,
            plaintext@,
            contents_of(contents),
            now,
        ),
        r is Ok ==> iv is Some && ({
            let vector = iv->0@;
            let kept = sealed(vector, account@, hash@, token@, plaintext@);
            let ciphertext = aes256_cbc(encryption_key(token@), vector, plaintext@);
            stays(contents_of(contents), hash@, kept, now) ==> {
                &&& recalled(account@, hash@, token@, Some(r->Ok_0@)) == Some(plaintext@)
                &&& forall|other: Seq<char>|
                    #[trigger] recalled(account@, hash@, other, Some(r->Ok_0@)) is Some ==> stamp(
                        other,
                        account@,
                        hash@,
                        vector,
                        ciphertext,
                    ) == stamp(token@, account@, hash@, vector, ciphertext)
            }
        }),
{
    match refusal(account, hash, token, plaintext) {
        Some(e) => return Err(e),
        None => {},
    }
    let iv = match iv {
        Some(iv) => iv,
        None => return Err("lnemail_sent_cache_unavailable"),
    };
    let ghost before = store_of(contents_of(contents));
    let entry = seal_with(&iv, account, hash, token, plaintext);
    let ghost record = entry@;
    let r = enter(load(contents), hash, entry, now);
    proof {
        let ciphertext = aes256_cbc(encryption_key(token@), iv@, plaintext@);
        let mac = stamp(token@, account@, hash@, iv@, ciphertext);
        what_is_entered_is_in_the_store(before, hash@, record, now);
        if stays(contents_of(contents), hash@, record, now) {
            kept_entry_is_found(entries_of(before), hash@, stamped(record, now));
            stamped_opens_as_sealed(account@, hash@, token@, iv@, ciphertext, mac, now);
            assert forall|other: Seq<char>| #[trigger]
                recalled(account@, hash@, other, Some(r@)) is Some implies stamp(
                other,
                account@,
                hash@,
                iv@,
                ciphertext,
            ) == mac by {
                stamped_opens_as_sealed(account@, hash@, other, iv@, ciphertext, mac, now);
                assert(opened(account@, hash@, other, Json::Record(record)) is Some);
            }
        }
    }
    Ok(r)
}

/// Encrypts a message under the account's token, and gives what the account's
/// file is to hold once the message has been remembered for its payment hash.
/// The vector is of chance: that chance fails is the one refusal that the
/// parameters do not decide.
pub fn remember(
    account: &str,
    hash: &str,
    token: &str,
    plaintext: &[u8],
    contents: Option<Value>,
    now: u64,
) -> (r: Result<Value, &'static str>)
    ensures
        match refused(account@, hash@, token@, plaintext@.len()) {
            Some(e) => in_json(r) == Err::<Json, &'static str>(e),
            None => match r {
                Ok(store) => exists|iv: Seq<u8>|
                    {
                        let kept = #[trigger] sealed(iv, account@, hash@, token@, plaintext@);
                        &&& iv.len() == 16
                        &&& store@ == store_after(
                            store_of(contents_of(contents)),
                            hash@,
                            kept,
                            now,
                        )
                        &&& stays(contents_of(contents), hash@, kept, now) ==> recalled(
                            account@,
                            hash@,
                            token@,
                            Some(store@),
                        ) == Some(plaintext@)
                    },
                Err(e) => e == "lnemail_sent_cache_unavailable",
            },
        },
        exists|iv: Option<[u8; 16]>|
            #[trigger] came_of_chance(iv) && in_json(r) == remembered(
                vector_of(iv),
                account@,
                hash@,
                token@,
                plaintext@,
                contents_of(contents),
                now,
            ),
{
    let chance = random_vector;
    let iv = chance();
    assert(came_of_chance(iv));
    let r = remember_with(iv, account, hash, token, plaintext, contents, now);
    proof {
        if r is Ok {
            let vector = iv->0@;
            assert(r->Ok_0@ == store_after(
                store_of(contents_of(contents)),
                hash@,
                sealed(vector, account@, hash@, token@, plaintext@),
                now,
            ));
        }
    }
    r
}

/// Reads back what is remembered for a payment hash, where anything is and the
/// token still opens it.
pub fn recall(account: &str, hash: &str, token: &str, contents: Option<Value>) -> (r: Option<
    Vec<u8>,
>)
    ensures
        seq_of(r) == recalled(account@, hash@, token@, contents_of(contents)),
{
    if account.is_empty() || hash.is_empty() || token.is_empty() {
        return None;
    }
    let store = load(contents);
    match store.get("entries") {
        Some(entries) => match entries.get(hash) {
            Some(entry) => open(account, hash, token, entry),
            None => None,
        },
        None => None,
    }
}

/// A message stays where it was made later than every other in the store, and
/// where the store has room for it, whenever it was made.
pub proof fn the_newest_message_stays(
    contents: Option<Json>,
    hash: Seq<char>,
    iv: Seq<u8>,
    ciphertext: Seq<u8>,
    mac: Seq<u8>,
    now: u64,
)
    requires
        ({
            let entries = entries_of(store_of(contents));
            ||| forall|i: int|
                0 <= i < entries.len() && (#[trigger] entries[i]).0 != hash ==> made_at(
                    entries[i].1,
                ) < now
            ||| entries.len() < MAX_ENTRIES
            ||| entries.len() == MAX_ENTRIES && member(entries, hash) is Some
        }),
        distinct(entries_of(store_of(contents))),
    ensures
        stays(contents, hash, sealed_entry(iv, ciphertext, mac), now),
{
    let entries = entries_of(store_of(contents));
    let entry = stamped(sealed_entry(iv, ciphertext, mac), now);
    let all = put(entries, hash, entry);
    let p = place_put(entries, hash);
    stamped_opens_as_sealed(hash, hash, hash, iv, ciphertext, mac, now);
    put_is_found(entries, hash, entry);
    place_is_first(entries, hash);
    slot_is_within(entries, hash);
    member_at_place(entries, hash);
    let at = times(all);
    if forall|i: int|
        0 <= i < entries.len() && (#[trigger] entries[i]).0 != hash ==> made_at(entries[i].1)
            < now {
        assert forall|j: int| 0 <= j < at.len() implies !newer(at, j, p) by {
            if j != p {
                let k = if place(entries, hash) < entries.len() || j < p {
                    j
                } else {
                    j - 1
                };
                assert(all[j] == entries[k]);
                if entries[k].0 == hash {
                    assert(entries[p].0 == hash);
                }
            }
        }
        assert(newer_among(at, p, at.len() as int) =~= Set::empty());
    } else {
        rank_is_bounded(at, p);
    }
}

/// Remembering a message changes no other: what else was remembered is
/// recalled as before where it is kept, and not at all where it is dropped.
/// No payment hash comes to stand twice, and no more stand than are kept.
pub proof fn no_other_message_is_changed(
    contents: Option<Json>,
    hash: Seq<char>,
    sealed: Record,
    now: u64,
    account: Seq<char>,
    other: Seq<char>,
    token: Seq<char>,
)
    requires
        distinct(entries_of(store_of(contents))),
        other != hash,
    ensures
        ({
            let after = Some(store_after(store_of(contents), hash, sealed, now));
            let entries = put(entries_of(store_of(contents)), hash, stamped(sealed, now));
            recalled(account, other, token, after) == (if is_kept(
                entries,
                MAX_ENTRIES as nat,
                other,
            ) {
                recalled(account, other, token, contents)
            } else {
                None
            })
        }),
        distinct(entries_of(store_after(store_of(contents), hash, sealed, now))),
        entries_of(store_after(store_of(contents), hash, sealed, now)).len() <= MAX_ENTRIES,
{
    fresh_store_is_store();
    let before = store_of(contents);
    let entries = entries_of(before);
    let all = put(entries, hash, stamped(sealed, now));
    what_is_entered_is_in_the_store(before, hash, sealed, now);
    put_is_found(entries, hash, stamped(sealed, now));
    put_keeps_names_distinct(entries, hash, stamped(sealed, now));
    what_is_kept_is_found_as_it_was(all, MAX_ENTRIES as nat, other);
    the_newest_have_distinct_names(all, MAX_ENTRIES as nat);
    as_many_are_kept_as_may_be(all, MAX_ENTRIES as nat);
    assert(member(all, other) == member(entries, other));
}

} // verus!
