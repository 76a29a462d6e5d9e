use lnemail::json::{Field, Number, Value};
use lnemail::sent_cache::{
    constant_time_eq, enter, keys, load, open, readable, recall, remember, remember_with,
    safe_name, safe_name_from, seal, seal_with, tag, writable, MAX_ENTRIES, MAX_FILE,
    MAX_PLAINTEXT,
};

const ACCOUNT: &str = "lnemail:sender@example.org";

fn s(text: &str) -> Value {
    Value::String(text.to_string())
}

fn n(number: u64) -> Value {
    Value::Number(Number::Unsigned(number))
}

fn obj(fields: Vec<(&str, Value)>) -> Value {
    Value::Object(
        fields
            .into_iter()
            .map(|(name, value)| Field { name: name.to_string(), value })
            .collect(),
    )
}

fn copy(value: &Value) -> Value {
    match value {
        Value::Null => Value::Null,
        Value::Bool(b) => Value::Bool(*b),
        Value::Number(Number::Unsigned(n)) => Value::Number(Number::Unsigned(*n)),
        Value::Number(Number::Negative(n)) => Value::Number(Number::Negative(*n)),
        Value::Number(Number::Decimal(s)) => Value::Number(Number::Decimal(s.clone())),
        Value::String(s) => Value::String(s.clone()),
        Value::Array(items) => Value::Array(items.iter().map(copy).collect()),
        Value::Object(fields) => Value::Object(
            fields
                .iter()
                .map(|f| Field { name: f.name.clone(), value: copy(&f.value) })
                .collect(),
        ),
    }
}

fn entries(store: &Value) -> &Vec<Field> {
    store.get("entries").unwrap().as_object().unwrap()
}

fn sent(to: &str, subject: &str, body: &str) -> Vec<u8> {
    format!("{{\"to\":\"{to}\",\"subject\":\"{subject}\",\"body\":\"{body}\"}}").into_bytes()
}

fn parsed(bytes: Option<Vec<u8>>) -> serde_json::Value {
    serde_json::from_slice(&bytes.unwrap()).unwrap()
}

#[test]
fn remembered_content_is_recalled_with_the_same_token() {
    let file = remember(
        ACCOUNT,
        "hash-1",
        "token-a",
        &sent("you@example.org", "Hi", "Hello"),
        None,
        1,
    )
    .unwrap();
    let recalled = parsed(recall(ACCOUNT, "hash-1", "token-a", Some(file)));
    assert_eq!(recalled["subject"], "Hi");
    assert_eq!(recalled["body"], "Hello");
}

#[test]
fn a_rotated_token_cannot_recall_a_previously_sealed_entry() {
    let file =
        remember(ACCOUNT, "hash-2", "token-old", &sent("a@example.org", "S", "B"), None, 1)
            .unwrap();
    assert!(recall(ACCOUNT, "hash-2", "token-new", Some(copy(&file))).is_none());
    assert!(recall(ACCOUNT, "hash-2", "token-old", Some(file)).is_some());
}

#[test]
fn an_unknown_hash_or_account_recalls_nothing() {
    let file =
        remember(ACCOUNT, "hash-3", "token-a", &sent("a@example.org", "S", "B"), None, 1).unwrap();
    assert!(recall(ACCOUNT, "hash-does-not-exist", "token-a", Some(copy(&file))).is_none());
    // Another account has a file of its own; the same file would not help it.
    let other = "lnemail:other@example.org";
    assert_ne!(safe_name(other), safe_name(ACCOUNT));
    assert!(recall(other, "hash-3", "token-a", None).is_none());
    assert!(recall(other, "hash-3", "token-a", Some(file)).is_none());
}

#[test]
fn entries_beyond_the_cap_drop_the_oldest_first() {
    let mut file = None;
    for i in 0..(MAX_ENTRIES + 5) {
        let plaintext = sent("a@example.org", &format!("S{i}"), "B");
        let hash = format!("hash-{i}");
        file = Some(
            remember(ACCOUNT, &hash, "token-a", &plaintext, file, 1000 + 2 * i as u64).unwrap(),
        );
    }
    let file = file.unwrap();
    assert_eq!(entries(&file).len(), MAX_ENTRIES);
    assert!(recall(ACCOUNT, "hash-0", "token-a", Some(copy(&file))).is_none());
    assert!(recall(ACCOUNT, "hash-4", "token-a", Some(copy(&file))).is_none());
    assert!(recall(ACCOUNT, "hash-5", "token-a", Some(copy(&file))).is_some());
    let last = format!("hash-{}", MAX_ENTRIES + 4);
    assert!(recall(ACCOUNT, &last, "token-a", Some(file)).is_some());
}

#[test]
fn nothing_is_remembered_without_an_account_a_hash_and_a_token() {
    for (account, hash, token) in [("", "h", "t"), ("a", "", "t"), ("a", "h", "")] {
        assert_eq!(remember(account, hash, token, b"x", None, 1), Err("invalid_params"));
        assert!(recall(account, hash, token, None).is_none());
    }
}

#[test]
fn a_message_that_is_too_long_is_not_remembered() {
    let long = vec![0; MAX_PLAINTEXT + 1];
    assert_eq!(
        remember("a", "h", "t", &long, None, 1),
        Err("lnemail_sent_cache_unavailable")
    );
    let file = remember("a", "h", "t", &long[1..], None, 1).unwrap();
    assert_eq!(recall("a", "h", "t", Some(file)).unwrap().len(), MAX_PLAINTEXT);
}

#[test]
fn nothing_is_remembered_where_chance_fails() {
    assert_eq!(
        remember_with(None, "a", "h", "t", b"x", None, 1),
        Err("lnemail_sent_cache_unavailable")
    );
    assert_eq!(remember_with(None, "", "h", "t", b"x", None, 1), Err("invalid_params"));
}

#[test]
fn a_message_is_sealed_under_the_keys_of_its_token() {
    let entry = seal_with(&[7; 16], "a", "h", "t", b"plaintext").object();
    assert_eq!(entry.get("iv").unwrap().as_str(), Some("BwcHBwcHBwcHBwcHBwcHBw=="));
    assert_eq!(entry.get("ciphertext").unwrap().as_str(), Some("QFYahToVkkDQrqHQIisW+g=="));
    assert_eq!(
        entry.get("mac").unwrap().as_str(),
        Some("Si+Tj+Do0SYEDfa9pWuAEXpBA5deQIwWB24Ybgdqat0=")
    );
    assert_eq!(open("a", "h", "t", &entry).unwrap(), b"plaintext");
    assert!(open("b", "h", "t", &entry).is_none());
    assert!(open("a", "i", "t", &entry).is_none());
    assert!(open("a", "h", "u", &entry).is_none());
    let again = seal_with(&[7; 16], "a", "h", "t", b"plaintext").object();
    assert_eq!(entry, again);
    let other = seal_with(&[8; 16], "a", "h", "t", b"plaintext").object();
    assert_ne!(entry.get("ciphertext"), other.get("ciphertext"));
    let drawn = seal("a", "h", "t", b"plaintext").unwrap().object();
    assert_eq!(open("a", "h", "t", &drawn).unwrap(), b"plaintext");
}

#[test]
fn an_entry_that_was_tampered_with_does_not_open() {
    let entry = seal_with(&[7; 16], "a", "h", "t", b"plaintext").object();
    for field in ["iv", "ciphertext", "mac"] {
        for bad in ["", "!", "AAAA", "AAAAAAAAAAAAAAAAAAAAAA=="] {
            let fields = entry.as_object().unwrap();
            let changed = Value::Object(
                fields
                    .iter()
                    .map(|f| Field {
                        name: f.name.clone(),
                        value: if f.name == field { s(bad) } else { copy(&f.value) },
                    })
                    .collect(),
            );
            assert!(open("a", "h", "t", &changed).is_none());
        }
    }
    assert!(open("a", "h", "t", &Value::Null).is_none());
}

#[test]
fn the_two_keys_of_a_token_differ_from_each_other_and_from_another_token_s() {
    let (enc, mac) = keys("token");
    assert_ne!(enc, mac);
    assert_eq!(keys("token"), (enc, mac));
    let (enc_of_t, mac_of_t) = keys("t");
    assert_eq!(enc_of_t[..4], [228, 193, 52, 37]);
    assert_eq!(mac_of_t[..4], [142, 142, 136, 182]);
    let (other_enc, other_mac) = keys("other");
    assert_ne!(enc, other_enc);
    assert_ne!(mac, other_mac);
}

#[test]
fn a_stamp_tells_the_account_from_the_hash() {
    let key = [1; 32];
    assert_ne!(tag(&key, "ab", "c", &[0; 16], b"x"), tag(&key, "a", "bc", &[0; 16], b"x"));
    assert_eq!(tag(&key, "a", "b", &[0; 16], b"x").len(), 32);
}

#[test]
fn an_entry_fails_verification_in_another_slot() {
    let entry = seal_with(&[7; 16], "a", "b", "t", b"x").object();
    assert!(open("a", "b", "t", &entry).is_some());
    for (account, hash) in [("b", "a"), ("a", "c"), ("ab", ""), ("", "ab"), ("a\0b", "")] {
        assert!(open(account, hash, "t", &entry).is_none());
    }
    // A NUL does not make one slot of two.
    let key = [1; 32];
    assert_ne!(
        tag(&key, "a", "b\0c", &[0; 16], b"x"),
        tag(&key, "a\0b", "c", &[0; 16], b"x")
    );
    let entry = seal("a", "b\0c", "t", b"x").unwrap().object();
    assert_eq!(open("a", "b\0c", "t", &entry).unwrap(), b"x");
    assert!(open("a\0b", "c", "t", &entry).is_none());
}

#[test]
fn a_name_with_a_nul_is_remembered_like_any_other() {
    for (account, hash) in [("a", "b\0c"), ("a\0b", "c"), ("\0", "\0")] {
        let file = remember(account, hash, "t", b"x", None, 1).unwrap();
        assert_eq!(recall(account, hash, "t", Some(file)).unwrap(), b"x");
        let long = vec![0; MAX_PLAINTEXT + 1];
        assert_eq!(
            remember(account, hash, "t", &long, None, 1),
            Err("lnemail_sent_cache_unavailable")
        );
        assert_eq!(remember(account, hash, "", &long, None, 1), Err("invalid_params"));
    }
}

#[test]
fn bytes_are_compared_as_far_as_the_shorter_run_goes() {
    assert!(constant_time_eq(b"abc", b"abc"));
    assert!(!constant_time_eq(b"abc", b"abd"));
    assert!(constant_time_eq(b"abc", b"ab"));
    assert!(constant_time_eq(b"", b"x"));
}

#[test]
fn a_file_is_named_by_its_account() {
    assert_eq!(safe_name("lnemail:User@Example.org"), "lnemail:user@example.org.json");
    assert_eq!(safe_name("a/b_c é"), "a_2fb_5fc_20_c3_a9.json");
    assert_eq!(safe_name("A_b/c"), "a_5fb_2fc.json");
    assert_eq!(safe_name("ÀÉK"), safe_name("àék"));
    assert_eq!(safe_name(".."), "...json");
    assert_eq!(safe_name_from(""), ".json");
    assert_eq!(safe_name_from("A"), "A.json");
}

#[test]
fn what_is_no_store_counts_as_an_empty_one() {
    let empty = obj(vec![("version", n(1)), ("entries", obj(vec![]))]);
    assert_eq!(load(None), empty);
    assert_eq!(load(Some(Value::Null)), empty);
    assert_eq!(load(Some(obj(vec![("version", n(2)), ("entries", obj(vec![]))]))), empty);
    assert_eq!(load(Some(obj(vec![("version", n(1)), ("entries", s("x"))]))), empty);
    let kept = || {
        obj(vec![
            ("entries", obj(vec![("h", s("x"))])),
            ("other", n(5)),
            ("version", n(1)),
        ])
    };
    assert_eq!(load(Some(kept())), kept());
}

#[test]
fn a_file_is_read_up_to_its_greatest_length() {
    assert!(readable(0));
    assert!(readable(MAX_FILE as u64));
    assert!(!readable(MAX_FILE as u64 + 1));
}

#[test]
fn a_file_that_would_not_be_read_is_not_written() {
    assert_eq!(writable(0), Ok(()));
    assert_eq!(writable(MAX_FILE as u64), Ok(()));
    assert_eq!(writable(MAX_FILE as u64 + 1), Err("lnemail_sent_cache_unavailable"));
    assert_eq!(writable(u64::MAX), Err("lnemail_sent_cache_unavailable"));
}

#[test]
fn an_entry_is_put_in_under_its_name_and_in_order() {
    let entry = |at: u64| obj(vec![("at", n(at))]);
    let store = obj(vec![
        ("entries", obj(vec![("a", entry(1)), ("c", entry(2))])),
        ("other", n(5)),
        ("version", n(1)),
    ]);
    let store = enter(store, "b", lnemail::json::Members::new(), 9);
    let names: Vec<&str> = entries(&store).iter().map(|f| f.name.as_str()).collect();
    assert_eq!(names, ["a", "b", "c"]);
    assert_eq!(entries(&store)[1].value, entry(9));
    assert_eq!(store.get("other"), Some(&n(5)));
    let store = enter(store, "a", lnemail::json::Members::new(), 10);
    assert_eq!(entries(&store).len(), 3);
    assert_eq!(entries(&store)[0].value, entry(10));
}

#[test]
fn of_entries_made_at_one_time_the_first_by_name_stay() {
    let all: Vec<Field> = (0..MAX_ENTRIES)
        .map(|i| Field { name: format!("h{i:02}"), value: obj(vec![("at", n(5))]) })
        .collect();
    let store = || {
        let fields = all
            .iter()
            .map(|f| Field { name: f.name.clone(), value: copy(&f.value) })
            .collect();
        obj(vec![("version", n(1)), ("entries", Value::Object(fields))])
    };
    let after = enter(store(), "h99", lnemail::json::Members::new(), 5);
    assert_eq!(entries(&after).len(), MAX_ENTRIES);
    assert!(after.get("entries").unwrap().get("h99").is_none());
    let after = enter(store(), "h00a", lnemail::json::Members::new(), 5);
    assert!(after.get("entries").unwrap().get("h00a").is_some());
    assert!(after.get("entries").unwrap().get("h19").is_none());
    let after = enter(store(), "h99", lnemail::json::Members::new(), 6);
    assert!(after.get("entries").unwrap().get("h99").is_some());
}

#[test]
fn remembering_again_replaces_what_was_remembered() {
    let file = remember(ACCOUNT, "h", "t", b"one", None, 1).unwrap();
    let file = remember(ACCOUNT, "other", "t", b"else", Some(file), 2).unwrap();
    let file = remember(ACCOUNT, "h", "t", b"two", Some(file), 3).unwrap();
    assert_eq!(entries(&file).len(), 2);
    assert_eq!(recall(ACCOUNT, "h", "t", Some(copy(&file))).unwrap(), b"two");
    assert_eq!(recall(ACCOUNT, "other", "t", Some(file)).unwrap(), b"else");
}
