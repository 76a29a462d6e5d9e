//! What this device keeps of what was sent: what is remembered and for how
//! long, what opens it again, and under which name it is filed.
use vstd::prelude::*;
use vstd::string::*;

use crate::codec::{base64, base64_read};
use crate::crypto::{aes256_cbc, aes256_cbc_read, hkdf_sha256, hmac_sha256};
use crate::entries::{
    as_many_are_kept_as_may_be, distinct, member_at_place, newest, newest_from, place,
    place_is_first, precedes, put, put_is_found, put_keeps_names_distinct, rank, rank_is_bounded,
    rank_rises, slot, slot_is_within, the_oldest_are_dropped_first, times, what_is_kept_is_found,
    what_is_kept_is_found_as_it_was,
};
use crate::json::{member, member_of_push, Json, Record};
use crate::sent_cache::{
    agree, entries_of, file_named, framed, is_readable, is_store, name_piece, name_stem,
    names_without_nul_are_framed_as_they_are, opened, recalled, refused, remembered, sealed,
    stamped, stays, store_after, store_of, what_is_entered_is_in_the_store, write_refused,
    MAX_ENTRIES, MAX_FILE, MAX_PLAINTEXT,
};
use crate::text::{bytes_of, bytes_of_injective};

verus! {

/// What the limits on what is kept are.
pub proof fn the_limits_of_the_cache()
    ensures
        MAX_ENTRIES == 20,
        MAX_FILE == 256 * 1024,
        MAX_PLAINTEXT == 1024 * 1024,
{
}

/// Remembering is refused for what is stated and for nothing else: an account,
/// a payment hash or a token that is empty, whatever the message, and then a
/// message of more than 1 MiB.
pub proof fn why_remembering_is_refused(
    account: Seq<char>,
    hash: Seq<char>,
    token: Seq<char>,
    length: nat,
)
    ensures
        refused(account, hash, token, length) is None <==> account.len() > 0 && hash.len() > 0
            && token.len() > 0 && length <= 1048576,
        refused(account, hash, token, length) == Some("invalid_params") <==> account.len() == 0
            || hash.len() == 0 || token.len() == 0,
        refused(account, hash, token, length) == Some("lnemail_sent_cache_unavailable")
            <==> account.len() > 0 && hash.len() > 0 && token.len() > 0 && length > 1048576,
{
    words_differ();
}

proof fn words_differ()
    ensures
        "invalid_params" != "lnemail_sent_cache_unavailable",
{
    reveal_strlit("invalid_params");
    reveal_strlit("lnemail_sent_cache_unavailable");
    assert("invalid_params"@.len() != "lnemail_sent_cache_unavailable"@.len());
}

proof fn entry_names_differ()
    ensures
        "iv"@ != "ciphertext"@,
        "iv"@ != "mac"@,
        "iv"@ != "at"@,
        "ciphertext"@ != "mac"@,
        "ciphertext"@ != "at"@,
        "mac"@ != "at"@,
        "version"@ != "entries"@,
{
    reveal_strlit("iv");
    reveal_strlit("ciphertext");
    reveal_strlit("mac");
    reveal_strlit("at");
    reveal_strlit("version");
    reveal_strlit("entries");
    assert("iv"@.len() == 2 && "ciphertext"@.len() == 10 && "mac"@.len() == 3);
    assert("at"@[0] == 'a' && "iv"@[0] == 'i' && "at"@.len() == 2);
    assert("version"@[0] == 'v' && "entries"@[0] == 'e');
}

/// The key that HKDF expands from a token for a purpose.
pub open spec fn key_for(token: Seq<char>, purpose: Seq<char>) -> Seq<u8> {
    hkdf_sha256(bytes_of(token), bytes_of(purpose))
}

/// Whether an entry holds a message under a vector: encrypted under the one key
/// of the token, and stamped, with the account and the payment hash, under the
/// other.
pub open spec fn holds_message(
    entry: Json,
    iv: Seq<u8>,
    account: Seq<char>,
    hash: Seq<char>,
    token: Seq<char>,
    plaintext: Seq<u8>,
) -> bool {
    let ciphertext = aes256_cbc(key_for(token, "omamail-lnemail-sent-enc-v1"@), iv, plaintext);
    &&& entry.at("iv"@) == Json::Text(base64(iv))
    &&& entry.at("ciphertext"@) == Json::Text(base64(ciphertext))
    &&& entry.at("mac"@) == Json::Text(
        base64(
            hmac_sha256(
                key_for(token, "omamail-lnemail-sent-mac-v1"@),
                framed(account, hash, iv, ciphertext),
            ),
        ),
    )
}

/// Whether an account, a payment hash and a token are all there, and a message
/// is not too long.
pub open spec fn may_be_kept(
    account: Seq<char>,
    hash: Seq<char>,
    token: Seq<char>,
    length: nat,
) -> bool {
    account.len() > 0 && hash.len() > 0 && token.len() > 0 && length <= 1048576
}

/// Every message that may be kept is: where a vector is there, remembering it
/// succeeds, whatever the account, the payment hash and the token are and
/// whatever the file held; the file is then a store, and where the message
/// stays it stands there under its payment hash, sealed, with the time.
pub proof fn what_may_be_kept_is_remembered(
    iv: Option<Seq<u8>>,
    account: Seq<char>,
    hash: Seq<char>,
    token: Seq<char>,
    plaintext: Seq<u8>,
    contents: Option<Json>,
    now: u64,
)
    ensures
        ({
            let r = remembered(iv, account, hash, token, plaintext, contents, now);
            let kept = may_be_kept(account, hash, token, plaintext.len());
            &&& r is Ok <==> kept && iv is Some
            &&& kept && iv is None ==> r == Err::<Json, &'static str>(
                "lnemail_sent_cache_unavailable",
            )
            &&& r is Ok ==> {
                let store = r->Ok_0;
                &&& store.at("version"@) == Json::Integer(1)
                &&& store.at("entries"@) is Record
                &&& stays(contents, hash, sealed(iv->0, account, hash, token, plaintext), now) ==> {
                    let entry = store.at("entries"@).at(hash);
                    &&& holds_message(entry, iv->0, account, hash, token, plaintext)
                    &&& entry.at("at"@) == Json::Integer(now as int)
                }
            }
        }),
{
    broadcast use member_of_push;

    entry_names_differ();
    words_differ();
    what_counts_as_a_store(contents);
    let r = remembered(iv, account, hash, token, plaintext, contents, now);
    if r is Ok {
        let record = sealed(iv->0, account, hash, token, plaintext);
        let before = store_of(contents);
        what_is_entered_is_in_the_store(before, hash, record, now);
        if stays(contents, hash, record, now) {
            let all = put(entries_of(before), hash, stamped(record, now));
            put_is_found(entries_of(before), hash, stamped(record, now));
            what_is_kept_is_found(all, 20, hash);
            assert(r->Ok_0.at("entries"@).at(hash) == stamped(record, now));
        }
    }
}

/// A message is sealed as its vector, its ciphertext and its stamp, and nothing
/// else.
pub proof fn how_a_message_is_sealed(
    iv: Seq<u8>,
    account: Seq<char>,
    hash: Seq<char>,
    token: Seq<char>,
    plaintext: Seq<u8>,
)
    ensures
        holds_message(
            Json::Record(sealed(iv, account, hash, token, plaintext)),
            iv,
            account,
            hash,
            token,
            plaintext,
        ),
        sealed(iv, account, hash, token, plaintext).len() == 3,
{
    broadcast use member_of_push;

    entry_names_differ();
}

/// What opens an entry: its vector has sixteen bytes, and its stamp is the HMAC,
/// under the token's key, of the account, the payment hash, the vector and the
/// ciphertext. It then opens to what the ciphertext decrypts to, and else to
/// nothing.
pub proof fn what_opens_an_entry(
    account: Seq<char>,
    hash: Seq<char>,
    token: Seq<char>,
    entry: Json,
    iv: Seq<u8>,
    ciphertext: Seq<u8>,
    mac: Seq<u8>,
)
    ensures
        ({
            let reads = |key: Seq<char>, bytes: Seq<u8>|
                entry.at(key) matches Json::Text(s) && base64_read(s) == Some(bytes);
            let fair = iv.len() == 16 && mac == hmac_sha256(
                key_for(token, "omamail-lnemail-sent-mac-v1"@),
                framed(account, hash, iv, ciphertext),
            );
            reads("iv"@, iv) && reads("ciphertext"@, ciphertext) && reads("mac"@, mac) ==> opened(
                account,
                hash,
                token,
                entry,
            ) == (if fair {
                aes256_cbc_read(
                    key_for(token, "omamail-lnemail-sent-enc-v1"@),
                    iv,
                    ciphertext,
                )
            } else {
                None
            })
        }),
        opened(account, hash, token, entry) is Some ==> entry.at("iv"@) is Text && entry.at(
            "ciphertext"@,
        ) is Text && entry.at("mac"@) is Text && base64_read(entry.at("iv"@)->Text_0) is Some
            && base64_read(entry.at("ciphertext"@)->Text_0) is Some && base64_read(
            entry.at("mac"@)->Text_0,
        ) is Some,
{
}

/// What is authenticated of an account and a payment hash without a NUL is the
/// two, each closed by a NUL, then the vector and the ciphertext.
pub proof fn what_is_authenticated(
    account: Seq<char>,
    hash: Seq<char>,
    iv: Seq<u8>,
    ciphertext: Seq<u8>,
)
    requires
        !bytes_of(account).contains(0),
        !bytes_of(hash).contains(0),
    ensures
        framed(account, hash, iv, ciphertext) == bytes_of(account) + Seq::empty().push(0u8)
            + bytes_of(hash) + Seq::empty().push(0u8) + iv + ciphertext,
{
    names_without_nul_are_framed_as_they_are(account, hash, iv, ciphertext);
    assert(framed(account, hash, iv, ciphertext) =~= bytes_of(account) + Seq::empty().push(0u8)
        + bytes_of(hash) + Seq::empty().push(0u8) + iv + ciphertext);
}

/// A file counts for what it holds exactly where it says the version that is
/// known and has entries; any other counts as one without entries.
pub proof fn what_counts_as_a_store(contents: Option<Json>)
    ensures
        ({
            let good = contents is Some && contents->0.at("version"@) == Json::Integer(1)
                && contents->0.at("entries"@) is Record;
            let store = store_of(contents);
            &&& good ==> store == contents->0
            &&& !good ==> store.at("version"@) == Json::Integer(1) && store.at("entries"@)
                == Json::Record(Seq::empty())
            &&& is_store(store)
        }),
{
    broadcast use member_of_push;

    entry_names_differ();
}

/// What is recalled for a payment hash is what its entry in the file opens to
/// under the account, the hash and the token; nothing where the file has none,
/// is no store, or one of the three is empty.
pub proof fn what_is_recalled(
    account: Seq<char>,
    hash: Seq<char>,
    token: Seq<char>,
    contents: Option<Json>,
)
    ensures
        ({
            let r = recalled(account, hash, token, contents);
            let good = account.len() > 0 && hash.len() > 0 && token.len() > 0 && contents is Some
                && contents->0.at("version"@) == Json::Integer(1)
                && contents->0.at("entries"@) is Record;
            match contents->0.at("entries"@).get(hash) {
                Some(entry) => r == (if good {
                    opened(account, hash, token, entry)
                } else {
                    None
                }),
                None => r is None,
            }
        }),
{
    what_counts_as_a_store(contents);
}

/// When an entry says that it was made; one that does not say is older than
/// all.
pub open spec fn says_made_at(entry: Json) -> int {
    match entry.at("at"@) {
        Json::Integer(n) => if 0 <= n <= 0xffff_ffff_ffff_ffff {
            n
        } else {
            0
        },
        _ => 0,
    }
}

/// Putting a message in leaves at most twenty, and drops none while there is
/// room: those that are kept are as they were, and none that is dropped was
/// made later than one that is kept.
pub proof fn the_twenty_newest_are_kept(
    store: Json,
    hash: Seq<char>,
    record: Record,
    now: u64,
    kept: Seq<char>,
    dropped: Seq<char>,
)
    requires
        is_store(store),
        distinct(store.at("entries"@)->Record_0),
    ensures
        ({
            let before = store.at("entries"@)->Record_0;
            let entry = Json::Record(record.push(("at"@, Json::Integer(now as int))));
            let after = store_after(store, hash, record, now).at("entries"@);
            let count = before.len() + (if store.at("entries"@).get(hash) is Some {
                0int
            } else {
                1
            });
            let was = |name: Seq<char>|
                if name == hash {
                    Some(entry)
                } else {
                    store.at("entries"@).get(name)
                };
            &&& after is Record
            &&& after->Record_0.len() == (if count <= 20 {
                count
            } else {
                20
            })
            &&& after.get(kept) is Some ==> after.get(kept) == was(kept)
            &&& count <= 20 ==> after.get(kept) == was(kept)
            &&& after.get(kept) is Some && after.get(dropped) is None && was(dropped) is Some
                ==> says_made_at(was(kept)->0) >= says_made_at(was(dropped)->0)
        }),
{
    let before = entries_of(store);
    let entry = stamped(record, now);
    let all = put(before, hash, entry);
    what_is_entered_is_in_the_store(store, hash, record, now);
    put_is_found(before, hash, entry);
    put_keeps_names_distinct(before, hash, entry);
    what_is_kept_is_found_as_it_was(all, 20, kept);
    what_is_kept_is_found_as_it_was(all, 20, dropped);
    as_many_are_kept_as_may_be(all, 20);
    member_at_place(before, hash);
    place_is_first(before, hash);
    slot_is_within(before, hash);
    assert(newest(all, 20) == entries_of(store_after(store, hash, record, now)));
    if kept != hash {
        assert(member(all, kept) == member(before, kept));
    }
    if dropped != hash {
        assert(member(all, dropped) == member(before, dropped));
    }
    if all.len() <= 20 {
        room_keeps_all(all, kept);
    }
    if member(newest(all, 20), kept) is Some && member(newest(all, 20), dropped) is None && member(
        all,
        dropped,
    ) is Some {
        the_oldest_are_dropped_first(all, 20, kept, dropped);
    }
}

/// Putting a message in changes nothing of a store but its entries.
pub proof fn nothing_else_of_a_store_changes(
    store: Json,
    hash: Seq<char>,
    record: Record,
    now: u64,
    key: Seq<char>,
)
    requires
        is_store(store),
        key != "entries"@,
    ensures
        store_after(store, hash, record, now).get(key) == store.get(key),
{
    let fields = store->Record_0;
    let entries = store_after(store, hash, record, now).at("entries"@);
    place_is_first(fields, "entries"@);
    member_at_place(fields, "entries"@);
    let value = Json::Record(
        newest(put(entries_of(store), hash, stamped(record, now)), MAX_ENTRIES as nat),
    );
    put_is_found(fields, "entries"@, value);
    assert(store_after(store, hash, record, now) == Json::Record(put(fields, "entries"@, value)));
}

proof fn room_keeps_all(all: Record, name: Seq<char>)
    requires
        all.len() <= 20,
        distinct(all),
    ensures
        member(newest(all, 20), name) == member(all, name),
{
    what_is_kept_is_found_as_it_was(all, 20, name);
    member_at_place(all, name);
    place_is_first(all, name);
    let p = place(all, name);
    if p < all.len() {
        rank_is_bounded(times(all), p);
    }
}

/// One run of bytes comes before another where, behind what both begin with, it
/// ends or its next byte is the smaller.
pub proof fn which_name_comes_first(a: Seq<u8>, b: Seq<u8>)
    ensures
        precedes(a, b) <==> exists|n: int| #[trigger] parts_at(a, b, n),
    decreases a.len(),
{
    if a.len() > 0 && b.len() > 0 && a[0] == b[0] {
        let x = a.drop_first();
        let y = b.drop_first();
        which_name_comes_first(x, y);
        if precedes(x, y) {
            let n = choose|n: int| #[trigger] parts_at(x, y, n);
            assert(a.take(n + 1) =~= Seq::empty().push(a[0]) + x.take(n));
            assert(b.take(n + 1) =~= Seq::empty().push(b[0]) + y.take(n));
            assert(n < x.len() ==> x[n] == a[n + 1]);
            assert(y[n] == b[n + 1]);
            assert(parts_at(a, b, n + 1));
        }
        if exists|n: int| #[trigger] parts_at(a, b, n) {
            let n = choose|n: int| #[trigger] parts_at(a, b, n);
            assert(n > 0);
            assert(x.take(n - 1) =~= a.take(n).drop_first());
            assert(y.take(n - 1) =~= b.take(n).drop_first());
            assert(n < a.len() ==> x[n - 1] == a[n]);
            assert(y[n - 1] == b[n]);
            assert(parts_at(x, y, n - 1));
        }
    } else if b.len() == 0 {
    } else if a.len() == 0 {
        assert(a.take(0) =~= b.take(0));
        assert(parts_at(a, b, 0));
    } else {
        if a[0] < b[0] {
            assert(a.take(0) =~= b.take(0));
            assert(parts_at(a, b, 0));
        }
        if exists|n: int| #[trigger] parts_at(a, b, n) {
            let n = choose|n: int| #[trigger] parts_at(a, b, n);
            if n > 0 {
                assert(a.take(n)[0] == a[0] && b.take(n)[0] == b[0]);
            }
        }
    }
}

/// Whether two runs of bytes begin with the same `n`, and there the first ends
/// and the second does not, or has the smaller byte.
pub open spec fn parts_at(a: Seq<u8>, b: Seq<u8>, n: int) -> bool {
    &&& 0 <= n <= a.len()
    &&& n < b.len()
    &&& a.take(n) == b.take(n)
    &&& n == a.len() || a[n] < b[n]
}

/// Whether names stand in their order, none twice.
pub open spec fn in_order(entries: Record) -> bool {
    forall|i: int, j: int|
        0 <= i < j < entries.len() ==> precedes(
            bytes_of((#[trigger] entries[i]).0),
            bytes_of((#[trigger] entries[j]).0),
        )
}

proof fn nothing_comes_before_itself(a: Seq<u8>)
    ensures
        !precedes(a, a),
    decreases a.len(),
{
    if a.len() > 0 {
        nothing_comes_before_itself(a.drop_first());
    }
}

proof fn order_is_total(a: Seq<u8>, b: Seq<u8>, c: Seq<u8>)
    ensures
        precedes(a, b) && precedes(b, c) ==> precedes(a, c),
        a != b ==> precedes(a, b) || precedes(b, a),
        !precedes(a, a),
    decreases a.len() + b.len() + c.len(),
{
    nothing_comes_before_itself(a);
    if a.len() > 0 && b.len() > 0 {
        if c.len() > 0 {
            order_is_total(a.drop_first(), b.drop_first(), c.drop_first());
        } else {
            order_is_total(a.drop_first(), b.drop_first(), c);
        }
        if a != b && a[0] == b[0] && a.drop_first() == b.drop_first() {
            assert(a =~= Seq::empty().push(a[0]) + a.drop_first());
            assert(b =~= Seq::empty().push(b[0]) + b.drop_first());
        }
    } else if a.len() == 0 && b.len() == 0 {
        assert(a =~= b);
    }
}

proof fn slot_parts_the_names(entries: Record, name: Seq<char>)
    requires
        in_order(entries),
    ensures
        0 <= slot(entries, name) <= entries.len(),
        forall|i: int|
            0 <= i < slot(entries, name) ==> !precedes(
                bytes_of(name),
                bytes_of((#[trigger] entries[i]).0),
            ),
        forall|i: int|
            slot(entries, name) <= i < entries.len() ==> precedes(
                bytes_of(name),
                bytes_of((#[trigger] entries[i]).0),
            ),
    decreases entries.len(),
{
    if entries.len() > 0 {
        let rest = entries.drop_first();
        if precedes(bytes_of(name), bytes_of(entries[0].0)) {
            assert forall|i: int| 0 <= i < entries.len() implies precedes(
                bytes_of(name),
                bytes_of((#[trigger] entries[i]).0),
            ) by {
                if i > 0 {
                    assert(precedes(bytes_of(entries[0].0), bytes_of(entries[i].0)));
                    order_is_total(
                        bytes_of(name),
                        bytes_of(entries[0].0),
                        bytes_of(entries[i].0),
                    );
                }
            }
        } else {
            assert forall|i: int, j: int| 0 <= i < j < rest.len() implies precedes(
                bytes_of((#[trigger] rest[i]).0),
                bytes_of((#[trigger] rest[j]).0),
            ) by {
                assert(precedes(bytes_of(entries[i + 1].0), bytes_of(entries[j + 1].0)));
            }
            slot_parts_the_names(rest, name);
            assert forall|i: int| 0 <= i < slot(entries, name) implies !precedes(
                bytes_of(name),
                bytes_of((#[trigger] entries[i]).0),
            ) by {
                if i > 0 {
                    assert(entries[i] == rest[i - 1]);
                }
            }
            assert forall|i: int| slot(entries, name) <= i < entries.len() implies precedes(
                bytes_of(name),
                bytes_of((#[trigger] entries[i]).0),
            ) by {
                assert(entries[i] == rest[i - 1]);
            }
        }
    }
}

/// The entries of a store stay in the order of their names: where they stand
/// in it, they do after one more was put in.
pub proof fn names_stay_in_order(entries: Record, name: Seq<char>, value: Json)
    requires
        in_order(entries),
    ensures
        in_order(put(entries, name, value)),
{
    let all = put(entries, name, value);
    place_is_first(entries, name);
    if place(entries, name) < entries.len() {
        let p = place(entries, name);
        assert forall|i: int, j: int| 0 <= i < j < all.len() implies precedes(
            bytes_of((#[trigger] all[i]).0),
            bytes_of((#[trigger] all[j]).0),
        ) by {
            assert(all[i].0 == entries[i].0 && all[j].0 == entries[j].0);
        }
    } else {
        let p = slot(entries, name);
        slot_parts_the_names(entries, name);
        assert forall|i: int, j: int| 0 <= i < j < all.len() implies precedes(
            bytes_of((#[trigger] all[i]).0),
            bytes_of((#[trigger] all[j]).0),
        ) by {
            let a = if i < p {
                i
            } else {
                i - 1
            };
            let b = if j < p {
                j
            } else {
                j - 1
            };
            if i != p {
                assert(all[i] == entries[a]);
            }
            if j != p {
                assert(all[j] == entries[b]);
            }
            if i == p {
                assert(precedes(bytes_of(name), bytes_of(entries[b].0)));
            } else if j == p {
                assert(entries[a].0 != name);
                if bytes_of(entries[a].0) == bytes_of(name) {
                    bytes_of_injective(entries[a].0, name);
                }
                order_is_total(bytes_of(entries[a].0), bytes_of(name), bytes_of(name));
            } else {
                assert(precedes(bytes_of(entries[a].0), bytes_of(entries[b].0)));
            }
        }
    }
}

/// Of entries that were made at one time those whose names come first are kept.
pub proof fn of_one_time_the_first_names_are_kept(
    entries: Record,
    kept: Seq<char>,
    dropped: Seq<char>,
)
    requires
        distinct(entries),
        in_order(entries),
        member(newest(entries, 20), kept) is Some,
        member(newest(entries, 20), dropped) is None,
        member(entries, dropped) is Some,
        says_made_at(member(entries, kept)->0) == says_made_at(member(entries, dropped)->0),
    ensures
        precedes(bytes_of(kept), bytes_of(dropped)),
{
    let at = times(entries);
    what_is_kept_is_found_as_it_was(entries, 20, kept);
    what_is_kept_is_found_as_it_was(entries, 20, dropped);
    member_at_place(entries, kept);
    member_at_place(entries, dropped);
    place_is_first(entries, kept);
    place_is_first(entries, dropped);
    let k = place(entries, kept);
    let d = place(entries, dropped);
    assert(at[k] == says_made_at(entries[k].1));
    assert(at[d] == says_made_at(entries[d].1));
    if d < k {
        rank_rises(at, d, k);
    }
    assert(k < d);
    assert(precedes(bytes_of(entries[k].0), bytes_of(entries[d].0)));
}

/// What is kept stands in the order in which it stood.
pub proof fn what_is_kept_stays_in_order(entries: Record, most: nat)
    requires
        in_order(entries),
    ensures
        in_order(newest(entries, most)),
{
    newest_stays_in_order(entries, times(entries), most, 0);
}

proof fn newest_stays_in_order(entries: Record, times: Seq<u64>, most: nat, i: int)
    requires
        in_order(entries),
        0 <= i <= entries.len(),
    ensures
        in_order(newest_from(entries, times, most, i)),
        forall|k: int|
            0 <= k < newest_from(entries, times, most, i).len() ==> exists|j: int|
                i <= j < entries.len() && #[trigger] entries[j] == (#[trigger] newest_from(
                    entries,
                    times,
                    most,
                    i,
                )[k]),
    decreases entries.len() - i,
{
    if i < entries.len() {
        newest_stays_in_order(entries, times, most, i + 1);
        let rest = newest_from(entries, times, most, i + 1);
        let here = newest_from(entries, times, most, i);
        if rank(times, i) < most {
            assert(here[0] == entries[i]);
            assert forall|k: int| 0 <= k < here.len() implies exists|j: int|
                i <= j < entries.len() && #[trigger] entries[j] == (#[trigger] here[k]) by {
                if k > 0 {
                    assert(here[k] == rest[k - 1]);
                }
            }
            assert forall|a: int, b: int| 0 <= a < b < here.len() implies precedes(
                bytes_of((#[trigger] here[a]).0),
                bytes_of((#[trigger] here[b]).0),
            ) by {
                assert(here[b] == rest[b - 1]);
                if a > 0 {
                    assert(here[a] == rest[a - 1]);
                } else {
                    let j = choose|j: int|
                        i + 1 <= j < entries.len() && #[trigger] entries[j] == rest[b - 1];
                    assert(precedes(bytes_of(entries[i].0), bytes_of(entries[j].0)));
                }
            }
        }
    }
}

/// The byte that two digits of base sixteen stand for.
pub open spec fn hex_value(c: char) -> int {
    if '0' <= c <= '9' {
        c as u32 - '0' as u32
    } else {
        c as u32 - 'a' as u32 + 10
    }
}

/// How an account in lower case is written in the name of its file: byte by
/// byte, a letter, a digit and one of `.`, `-`, `@` and `:` as it is, any other
/// as an underscore and its two digits of base sixteen; and `.json` behind.
pub proof fn how_a_file_is_named(lower: Seq<char>, head: Seq<u8>, b: u8)
    ensures
        file_named(lower) == name_stem(bytes_of(lower)) + ".json"@,
        name_stem(Seq::empty()).len() == 0,
        ({
            let kept = 'a' as u8 <= b <= 'z' as u8 || 'A' as u8 <= b <= 'Z' as u8 || '0' as u8 <= b
                <= '9' as u8 || b == '.' as u8 || b == '-' as u8 || b == '@' as u8 || b == ':' as u8;
            let stem = name_stem(head.push(b));
            let n = name_stem(head).len() as int;
            &&& kept ==> stem == name_stem(head).push(b as char)
            &&& !kept ==> {
                &&& stem.len() == n + 3
                &&& stem.take(n) == name_stem(head)
                &&& stem[n] == '_'
                &&& 16 * hex_value(stem[n + 1]) + hex_value(stem[n + 2]) == b
                &&& '0' <= stem[n + 1] <= '9' || 'a' <= stem[n + 1] <= 'f'
                &&& '0' <= stem[n + 2] <= '9' || 'a' <= stem[n + 2] <= 'f'
            }
        }),
{
    stem_of_push(head, b);
    let stem = name_stem(head.push(b));
    assert(stem == name_stem(head) + name_piece(b));
    assert(stem.take(name_stem(head).len() as int) =~= name_stem(head));
    assert(name_piece(b).len() == 1 ==> stem =~= name_stem(head).push(name_piece(b)[0]));
}

proof fn stem_of_push(head: Seq<u8>, b: u8)
    ensures
        name_stem(head.push(b)) == name_stem(head) + name_piece(b),
    decreases head.len(),
{
    let all = head.push(b);
    if head.len() == 0 {
        assert(all.drop_first() =~= head);
        assert(name_stem(all.drop_first()) =~= Seq::<char>::empty());
        assert(name_stem(head) =~= Seq::<char>::empty());
        assert(name_stem(all) =~= name_piece(b));
        assert(name_stem(head) + name_piece(b) =~= name_piece(b));
    } else {
        assert(all.drop_first() =~= head.drop_first().push(b));
        stem_of_push(head.drop_first(), b);
        assert(name_stem(all) =~= name_stem(head) + name_piece(b));
    }
}

/// Two stamps of one length agree exactly where they are the same.
pub proof fn stamps_agree_where_they_are_the_same(a: Seq<u8>, b: Seq<u8>)
    requires
        a.len() == b.len(),
    ensures
        agree(a, b) <==> a == b,
{
    if agree(a, b) {
        assert(a =~= b);
    }
}

/// A file is read and written exactly up to 256 KiB, and one that is longer is
/// not written, with a word that says so.
pub proof fn how_long_a_file_may_be(length: nat)
    ensures
        is_readable(length) <==> length <= 262144,
        write_refused(length) == (if length <= 262144 {
            None
        } else {
            Some("lnemail_sent_cache_unavailable")
        }),
{
}

} // verus!
