//! Strings as sequences of characters: trimming, comparing, counting bytes,
//! and writing and reading decimal numbers.
use vstd::prelude::*;
use vstd::string::*;
use vstd::utf8::*;

verus! {

/// The bytes a string is stored as.
pub open spec fn bytes_of(s: Seq<char>) -> Seq<u8> {
    encode_utf8(s)
}

/// Unicode's White_Space property.
pub open spec fn white_space(c: char) -> bool {
    ||| '\u{9}' <= c <= '\u{d}'
    ||| c == ' '
    ||| c == '\u{85}'
    ||| c == '\u{a0}'
    ||| c == '\u{1680}'
    ||| '\u{2000}' <= c <= '\u{200a}'
    ||| c == '\u{2028}'
    ||| c == '\u{2029}'
    ||| c == '\u{202f}'
    ||| c == '\u{205f}'
    ||| c == '\u{3000}'
}

/// Whether `c` has Unicode's White_Space property.
pub fn is_white_space(c: char) -> (r: bool)
    ensures
        r == white_space(c),
{
    ('\u{9}' <= c && c <= '\u{d}') || c == ' ' || c == '\u{85}' || c == '\u{a0}' || c == '\u{1680}'
        || ('\u{2000}' <= c && c <= '\u{200a}') || c == '\u{2028}' || c == '\u{2029}' || c
        == '\u{202f}' || c == '\u{205f}' || c == '\u{3000}'
}

/// `s` without the white space at either end.
pub open spec fn trimmed(s: Seq<char>) -> Seq<char>
    decreases s.len(),
{
    if s.len() > 0 && white_space(s.first()) {
        trimmed(s.drop_first())
    } else if s.len() > 0 && white_space(s.last()) {
        trimmed(s.drop_last())
    } else {
        s
    }
}

/// `str::trim`: the string without its leading and trailing white space, as
/// Unicode's White_Space property has it.
pub assume_specification[ str::trim ](s: &str) -> (r: &str)
    ensures
        r@ == trimmed(s@),
;

/// `String::push`: the character goes to the end, and nothing else changes.
pub assume_specification[ std::string::String::push ](s: &mut std::string::String, c: char)
    ensures
        final(s)@ == old(s)@.push(c),
;

/// How many bytes a string takes.
pub fn byte_len(s: &str) -> (r: usize)
    ensures
        r == bytes_of(s@).len(),
{
    s.as_bytes().len()
}

/// The bytes of two strings put together are their bytes put together.
pub proof fn bytes_of_concat(a: Seq<char>, b: Seq<char>)
    ensures
        bytes_of(a + b) == bytes_of(a) + bytes_of(b),
    decreases a.len(),
{
    if a.len() == 0 {
        assert(a + b =~= b);
        assert(bytes_of(a) =~= Seq::<u8>::empty());
        assert(bytes_of(a) + bytes_of(b) =~= bytes_of(b));
    } else {
        bytes_of_concat(a.drop_first(), b);
        assert((a + b).drop_first() =~= a.drop_first() + b);
        assert(bytes_of(a + b) =~= bytes_of(a) + bytes_of(b));
    }
}

/// Two strings with the same bytes are the same string.
pub proof fn bytes_of_injective(a: Seq<char>, b: Seq<char>)
    requires
        bytes_of(a) == bytes_of(b),
    ensures
        a == b,
{
    encode_utf8_decode_utf8(a);
    encode_utf8_decode_utf8(b);
}

/// A string whose bytes are all of ASCII is one of ASCII characters.
pub proof fn ascii_bytes_are_characters(s: Seq<char>)
    requires
        forall|i: int| 0 <= i < bytes_of(s).len() ==> #[trigger] bytes_of(s)[i] < 128,
    ensures
        is_ascii_chars(s),
    decreases s.len(),
{
    if s.len() > 0 {
        let c: u32 = s[0] as u32;
        char_is_scalar(s[0]);
        char_u32_cast(s[0], c);
        let first = encode_scalar(c);
        let rest = s.drop_first();
        assert(bytes_of(s) == first + bytes_of(rest));
        assert(bytes_of(s)[0] == first[0]);
        assert forall|i: int| 0 <= i < bytes_of(rest).len() implies #[trigger] bytes_of(rest)[i]
            < 128 by {
            assert(bytes_of(s)[first.len() + i] == bytes_of(rest)[i]);
        }
        ascii_bytes_are_characters(rest);
        assert(forall|x: u8| #![auto] (0xC0u8 | x) >= 128 && (0xE0u8 | x) >= 128 && (0xF0u8 | x) >= 128)
            by (bit_vector);
        assert(has_width_1_encoding(c));
        assert forall|i: int| 0 <= i < s.len() implies '\0' <= #[trigger] s[i] <= '\u{7f}' by {
            if i > 0 {
                assert(s[i] == rest[i - 1]);
            }
        }
    }
}

/// A byte of ASCII in a string's bytes is one of its characters.
pub proof fn an_ascii_byte_is_a_character(s: Seq<char>, i: int) -> (k: int)
    requires
        0 <= i < bytes_of(s).len(),
        bytes_of(s)[i] < 128,
    ensures
        0 <= k < s.len(),
        s[k] == bytes_of(s)[i] as char,
    decreases s.len(),
{
    let c: u32 = s[0] as u32;
    char_is_scalar(s[0]);
    char_u32_cast(s[0], c);
    let first = encode_scalar(c);
    let rest = s.drop_first();
    assert(bytes_of(s) == first + bytes_of(rest));
    if i < first.len() {
        assert(bytes_of(s)[i] == first[i]);
        assert(forall|x: u8|
            #![auto]
            (0xC0u8 | x) >= 128 && (0xE0u8 | x) >= 128 && (0xF0u8 | x) >= 128 && (0x80u8 | x)
                >= 128) by (bit_vector);
        assert(has_width_1_encoding(c));
        assert(c <= 0x7F ==> (c & 0x7F) == c) by (bit_vector);
        0
    } else {
        assert(bytes_of(s)[i] == bytes_of(rest)[i - first.len()]);
        let k = an_ascii_byte_is_a_character(rest, i - first.len());
        assert(rest[k] == s[k + 1]);
        k + 1
    }
}

/// The byte 255 stands in no string.
pub proof fn no_byte_is_the_last(s: Seq<char>)
    ensures
        !bytes_of(s).contains(255),
    decreases s.len(),
{
    if s.len() > 0 {
        let c: u32 = s[0] as u32;
        char_is_scalar(s[0]);
        let first = encode_scalar(c);
        let rest = s.drop_first();
        no_byte_is_the_last(rest);
        assert(bytes_of(s) == first + bytes_of(rest));
        assert((c & 0x7F) as u8 != 255 && (0xC0u8 | ((c >> 6) & 0x1F) as u8) != 255 && (0xE0u8 | ((c
            >> 12) & 0x0F) as u8) != 255 && (0xF0u8 | ((c >> 18) & 0x7) as u8) != 255 && (0x80u8 | (
        c & 0x3F) as u8) != 255 && (0x80u8 | ((c >> 6) & 0x3F) as u8) != 255 && (0x80u8 | ((c >> 12)
            & 0x3F) as u8) != 255) by (bit_vector);
        assert forall|i: int| 0 <= i < bytes_of(s).len() implies bytes_of(s)[i] != 255 by {
            if i < first.len() {
                assert(bytes_of(s)[i] == first[i]);
            } else {
                assert(bytes_of(s)[i] == bytes_of(rest)[i - first.len()]);
            }
        }
    }
}

/// Whether two runs of bytes are the same.
pub fn same_bytes(a: &[u8], b: &[u8]) -> (r: bool)
    ensures
        r == (a@ == b@),
{
    if a.len() != b.len() {
        return false;
    }
    for i in 0..a.len()
        invariant
            a@.len() == b@.len(),
            forall|j: int| 0 <= j < i ==> a@[j] == b@[j],
    {
        if a[i] != b[i] {
            return false;
        }
    }
    assert(a@ =~= b@);
    true
}

/// Whether two strings are the same.
pub fn same(a: &str, b: &str) -> (r: bool)
    ensures
        r == (a@ == b@),
{
    let r = same_bytes(a.as_bytes(), b.as_bytes());
    proof {
        if r {
            bytes_of_injective(a@, b@);
        }
    }
    r
}

/// Whether `s` begins with `prefix`.
pub open spec fn begins_with(s: Seq<char>, prefix: Seq<char>) -> bool {
    prefix.len() <= s.len() && s.subrange(0, prefix.len() as int) == prefix
}

/// What is left of `s` behind `prefix`, if it begins with it.
pub fn after_prefix<'a>(s: &'a str, prefix: &str) -> (r: Option<&'a str>)
    ensures
        r is Some <==> begins_with(s@, prefix@),
        r is Some ==> r->0@ == s@.skip(prefix@.len() as int),
{
    let n: usize = prefix.unicode_len();
    let total: usize = s.unicode_len();
    if n <= total && same(s.substring_char(0, n), prefix) {
        let rest = s.substring_char(n, total);
        assert(rest@ =~= s@.skip(prefix@.len() as int));
        Some(rest)
    } else {
        None
    }
}

/// The decimal digit for a number below ten.
pub open spec fn digit(d: nat) -> char {
    (48 + d) as char
}

/// A number written in decimal, without leading zeros.
pub open spec fn decimal(n: nat) -> Seq<char>
    decreases n,
{
    if n < 10 {
        Seq::empty().push(digit(n))
    } else {
        decimal(n / 10).push(digit(n % 10))
    }
}

/// Writes a number in decimal.
pub fn decimal_text(n: u64) -> (r: String)
    ensures
        r@ == decimal(n as nat),
    decreases n,
{
    let d: u8 = (n % 10) as u8;
    let c: char = (48u8 + d) as char;
    if n < 10 {
        let mut s = String::new();
        s.push(c);
        s
    } else {
        let mut s = decimal_text(n / 10);
        s.push(c);
        s
    }
}

/// Whether `c` is a decimal digit.
pub open spec fn is_digit(c: char) -> bool {
    '0' <= c <= '9'
}

/// Whether every character is a decimal digit.
pub open spec fn all_digits(s: Seq<char>) -> bool {
    forall|i: int| 0 <= i < s.len() ==> is_digit(#[trigger] s[i])
}

/// The number that a run of decimal digits writes.
pub open spec fn digits_value(s: Seq<char>) -> nat
    decreases s.len(),
{
    if s.len() == 0 {
        0
    } else {
        digits_value(s.drop_last()) * 10 + ((s.last() as u32 - 48) as nat)
    }
}

/// The index that a string names: digits, with a plus sign before them or
/// none, for a number that an index can hold.
pub open spec fn index_named(s: Seq<char>) -> Option<usize> {
    let digits = if s.len() > 0 && s[0] == '+' {
        s.drop_first()
    } else {
        s
    };
    if digits.len() > 0 && all_digits(digits) && digits_value(digits) <= usize::MAX {
        Some(digits_value(digits) as usize)
    } else {
        None
    }
}

proof fn digits_value_grows(s: Seq<char>, n: int)
    requires
        0 <= n <= s.len(),
    ensures
        digits_value(s.take(n)) <= digits_value(s),
    decreases s.len() - n,
{
    if n == s.len() {
        assert(s.take(n) =~= s);
    } else {
        digits_value_grows(s, n + 1);
        assert(s.take(n + 1).drop_last() =~= s.take(n));
    }
}

/// Reads an index the way `usize` is read from a string.
pub fn parse_index(s: &str) -> (r: Option<usize>)
    ensures
        r == index_named(s@),
{
    let signed = match after_prefix(s, "+") {
        Some(rest) => rest,
        None => s,
    };
    proof {
        reveal_strlit("+");
        if s@.len() > 0 {
            assert(s@.subrange(0, 1) =~= seq![s@[0]]);
            assert("+"@ =~= seq!['+']);
            if s@[0] == '+' {
                assert(begins_with(s@, "+"@));
                assert(s@.skip(1) =~= s@.drop_first());
            } else {
                assert(s@.subrange(0, 1)[0] != "+"@[0]);
            }
        }
    }
    let ghost digits = signed@;
    if signed.is_empty() {
        return None;
    }
    let mut n: usize = 0;
    for c in it: signed.chars()
        invariant
            digits == signed@,
            it.seq() == digits,
            0 <= it.index() <= digits.len(),
            all_digits(digits.take(it.index() as int)),
            n == digits_value(digits.take(it.index() as int)),
            index_named(s@) == (if digits.len() > 0 && all_digits(digits) && digits_value(digits)
                <= usize::MAX {
                Some(digits_value(digits) as usize)
            } else {
                None
            }),
    {
        let ghost k = it.index() as int;
        assert(c == digits[k]);
        if !('0' <= c && c <= '9') {
            assert(!is_digit(digits[k]));
            return None;
        }
        let d: usize = (c as u32 - 48) as usize;
        proof {
            assert(digits.take(k + 1).drop_last() =~= digits.take(k));
            digits_value_grows(digits, k + 1);
        }
        if n > (usize::MAX - d) / 10 {
            return None;
        }
        n = n * 10 + d;
    }
    assert(digits.take(digits.len() as int) =~= digits);
    Some(n)
}

/// A number written in decimal reads back as itself.
pub proof fn decimal_reads_back(n: nat)
    ensures
        decimal(n).len() > 0,
        all_digits(decimal(n)),
        digits_value(decimal(n)) == n,
        n <= usize::MAX ==> index_named(decimal(n)) == Some(n as usize),
    decreases n,
{
    let s = decimal(n);
    if n < 10 {
        assert(s.drop_last() =~= Seq::<char>::empty());
        assert(digits_value(s.drop_last()) == 0);
    } else {
        decimal_reads_back(n / 10);
        assert(s.drop_last() =~= decimal(n / 10));
    }
    assert(is_digit(s[0]));
}

} // verus!
