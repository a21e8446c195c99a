//! Digests and encodings that outside crates compute.

use vstd::prelude::*;
use vstd::utf8::{
    decode_utf8, encode_utf8, encode_utf8_decode_utf8, encode_utf8_valid_utf8, valid_utf8,
};

use base64::Engine;
use hmac::Mac;
use sha1::Digest;

verus! {

/// A byte, or zero behind the last one.
pub open spec fn byte_at(bytes: Seq<u8>, i: int) -> int {
    if i < bytes.len() {
        bytes[i] as int
    } else {
        0
    }
}

/// The digit of a base64 text at a place: three bytes are four digits of six bits each.
pub open spec fn base64_digit(bytes: Seq<u8>, i: int) -> int {
    let x = byte_at(bytes, 3 * (i / 4));
    let y = byte_at(bytes, 3 * (i / 4) + 1);
    let z = byte_at(bytes, 3 * (i / 4) + 2);
    if i % 4 == 0 {
        x / 4
    } else if i % 4 == 1 {
        16 * (x % 4) + y / 16
    } else if i % 4 == 2 {
        4 * (y % 16) + z / 64
    } else {
        z % 64
    }
}

/// The character of a base64 digit: capital letters, small letters, numerals, and two
/// more.
pub open spec fn base64_char(d: int, dash: char, slash: char) -> char {
    if d < 26 {
        (65 + d) as u8 as char
    } else if d < 52 {
        (97 + d - 26) as u8 as char
    } else if d < 62 {
        (48 + d - 52) as u8 as char
    } else if d == 62 {
        dash
    } else {
        slash
    }
}

/// How many digits the base64 text of so many bytes has.
pub open spec fn base64_len(n: nat) -> nat {
    (4 * n + 2) / 3
}

/// The digits of bytes in base64, with the last two characters of the alphabet.
pub open spec fn base64_digits(bytes: Seq<u8>, dash: char, slash: char) -> Seq<char> {
    Seq::new(base64_len(bytes.len()), |i: int| base64_char(base64_digit(bytes, i), dash, slash))
}

/// The standard base64 text of bytes, filled up with equals signs to a multiple of four
/// characters.
pub open spec fn base64_text(bytes: Seq<u8>) -> Seq<char> {
    let digits = base64_digits(bytes, '+', '/');
    if bytes.len() % 3 == 0 {
        digits
    } else if bytes.len() % 3 == 1 {
        digits + seq!['=', '=']
    } else {
        digits + seq!['=']
    }
}

/// The URL-safe base64 text of bytes, without padding.
pub open spec fn base64url_text(bytes: Seq<u8>) -> Seq<char> {
    base64_digits(bytes, '-', '_')
}

/// The HMAC-SHA256 tag of a message under a key.
pub uninterp spec fn hmac_tag(key: Seq<u8>, message: Seq<u8>) -> Seq<u8>;

/// The SHA-1 digest of bytes.
pub uninterp spec fn sha1_bytes(data: Seq<u8>) -> Seq<u8>;

/// The text that bytes hold, with a replacement character for what is not UTF-8.
pub uninterp spec fn lossy_text(bytes: Seq<u8>) -> Seq<char>;

/// The text that bytes are read as: UTF-8 as it is, and other bytes with replacement
/// characters.
pub open spec fn text_of(bytes: Seq<u8>) -> Seq<char> {
    if valid_utf8(bytes) {
        decode_utf8(bytes)
    } else {
        lossy_text(bytes)
    }
}

/// What a text is written as is read as that text.
pub proof fn law_text_is_read_back(s: Seq<char>)
    ensures
        text_of(encode_utf8(s)) == s,
{
    encode_utf8_valid_utf8(s);
    encode_utf8_decode_utf8(s);
}

/// Whether a text consists of letters, digits, dashes and underscores.
pub open spec fn is_url_text(s: Seq<char>) -> bool {
    forall|i: int|
        0 <= i < s.len() ==> 'a' <= #[trigger] s[i] <= 'z' || 'A' <= s[i] <= 'Z' || '0' <= s[i]
            <= '9' || s[i] == '-' || s[i] == '_'
}

/// `base64::engine::general_purpose::STANDARD.encode`: the digits of the standard
/// alphabet, and the padding.
#[verifier::external_body]
pub(crate) fn base64_encode(bytes: &Vec<u8>) -> (r: String)
    requires
        bytes@.len() <= 65535,
    ensures
        r@ == base64_text(bytes@),
{
    base64::engine::general_purpose::STANDARD.encode(bytes)
}

/// `base64::engine::general_purpose::STANDARD.decode`. It takes texts that encoding gives
/// and no others: padding must be there, and the bits that are left over must be zero.
#[verifier::external_body]
pub(crate) fn base64_decode(text: &str) -> (r: Option<Vec<u8>>)
    ensures
        match r {
            Some(b) => base64_text(b@) == text@,
            None => forall|b: Seq<u8>| #[trigger] base64_text(b) != text@,
        },
{
    base64::engine::general_purpose::STANDARD.decode(text).ok()
}

/// `base64::engine::general_purpose::URL_SAFE_NO_PAD.encode`: the digits of the URL-safe
/// alphabet.
#[verifier::external_body]
pub(crate) fn base64url_encode(bytes: &Vec<u8>) -> (r: String)
    requires
        bytes@.len() <= 65535,
    ensures
        r@ == base64url_text(bytes@),
{
    base64::engine::general_purpose::URL_SAFE_NO_PAD.encode(bytes)
}

/// `base64::engine::general_purpose::URL_SAFE_NO_PAD.decode`. It takes texts that encoding
/// gives and no others: there must be no padding, and the bits that are left over must be
/// zero.
#[verifier::external_body]
pub(crate) fn base64url_decode(text: &str) -> (r: Option<Vec<u8>>)
    ensures
        match r {
            Some(b) => base64url_text(b@) == text@,
            None => forall|b: Seq<u8>| #[trigger] base64url_text(b) != text@,
        },
{
    base64::engine::general_purpose::URL_SAFE_NO_PAD.decode(text).ok()
}

/// Digits stand between zero and 63.
proof fn lemma_base64_digit(bytes: Seq<u8>, i: int)
    requires
        0 <= i,
    ensures
        0 <= base64_digit(bytes, i) < 64,
{
}

/// Different digits have different characters, where the last two of the alphabet are
/// neither letters nor numerals.
proof fn lemma_base64_char(d: int, e: int, dash: char, slash: char)
    requires
        0 <= d < 64,
        0 <= e < 64,
        dash == '+' && slash == '/' || dash == '-' && slash == '_',
    ensures
        base64_char(d, dash, slash) == base64_char(e, dash, slash) ==> d == e,
{
}

/// Bytes are told by their digits.
proof fn lemma_base64_digits(a: Seq<u8>, b: Seq<u8>, dash: char, slash: char)
    requires
        dash == '+' && slash == '/' || dash == '-' && slash == '_',
        base64_digits(a, dash, slash) == base64_digits(b, dash, slash),
    ensures
        a == b,
{
    let x = base64_digits(a, dash, slash);
    let y = base64_digits(b, dash, slash);
    assert(x.len() == y.len());
    assert(a.len() == b.len());
    assert forall|i: int| 0 <= i < x.len() implies base64_digit(a, i) == base64_digit(b, i) by {
        assert(x[i] == y[i]);
        lemma_base64_digit(a, i);
        lemma_base64_digit(b, i);
        lemma_base64_char(base64_digit(a, i), base64_digit(b, i), dash, slash);
    }
    assert forall|j: int| 0 <= j < a.len() implies a[j] == b[j] by {
        let k = 4 * (j / 3);
        let at = j % 3;
        assert(k / 4 == j / 3 && (k + 1) / 4 == j / 3 && (k + 2) / 4 == j / 3 && (k + 3) / 4 == j
            / 3);
        assert(k % 4 == 0 && (k + 1) % 4 == 1 && (k + 2) % 4 == 2 && (k + 3) % 4 == 3);
        assert(j == 3 * (j / 3) + at);
        assert(base64_digit(a, k + at) == base64_digit(b, k + at));
        assert(base64_digit(a, k + at + 1) == base64_digit(b, k + at + 1));
    }
    assert(a =~= b);
}

/// A base64 text stands for one sequence of bytes alone, so decoding undoes encoding.
pub proof fn law_base64_stands_for_one(a: Seq<u8>, b: Seq<u8>)
    ensures
        base64_text(a) == base64_text(b) ==> a == b,
        base64url_text(a) == base64url_text(b) ==> a == b,
{
    if base64_text(a) == base64_text(b) {
        lemma_base64_padding(a, b);
        lemma_base64_digits(a, b, '+', '/');
    }
    if base64url_text(a) == base64url_text(b) {
        lemma_base64_digits(a, b, '-', '_');
    }
}

/// Texts with padding are the same only where their digits are.
proof fn lemma_base64_padding(a: Seq<u8>, b: Seq<u8>)
    requires
        base64_text(a) == base64_text(b),
    ensures
        base64_digits(a, '+', '/') == base64_digits(b, '+', '/'),
{
    let t = base64_text(a);
    let x = base64_digits(a, '+', '/');
    let y = base64_digits(b, '+', '/');
    assert forall|i: int| 0 <= i < x.len() implies t[i] == x[i] && x[i] != '=' by {
        lemma_base64_digit(a, i);
    }
    assert forall|i: int| 0 <= i < y.len() implies t[i] == y[i] && y[i] != '=' by {
        lemma_base64_digit(b, i);
    }
    if x.len() < y.len() {
        assert(t[x.len() as int] == '=');
        assert(false);
    }
    if y.len() < x.len() {
        assert(t[y.len() as int] == '=');
        assert(false);
    }
    assert(x =~= y);
}

/// A URL-safe base64 text consists of letters, digits, dashes and underscores.
pub proof fn lemma_base64url_is_url_text(bytes: Seq<u8>)
    ensures
        is_url_text(base64url_text(bytes)),
        base64url_text(bytes).len() == base64_len(bytes.len()),
{
    let t = base64url_text(bytes);
    assert forall|i: int| 0 <= i < t.len() implies 'a' <= #[trigger] t[i] <= 'z' || 'A' <= t[i]
        <= 'Z' || '0' <= t[i] <= '9' || t[i] == '-' || t[i] == '_' by {
        lemma_base64_digit(bytes, i);
    }
}

/// `Hmac::<Sha256>`: `new_from_slice`, `update` and `finalize`. The tag has 32 bytes.
#[verifier::external_body]
pub(crate) fn hmac_sha256(key: &[u8], message: &[u8]) -> (r: Vec<u8>)
    ensures
        r@ == hmac_tag(key@, message@),
        r@.len() == 32,
{
    let mut mac = hmac::Hmac::<sha2::Sha256>::new_from_slice(key).unwrap();
    mac.update(message);
    mac.finalize().into_bytes().to_vec()
}

/// `Hmac::<Sha256>`: `new_from_slice`, `update` and `verify_slice`, which compares in
/// constant time and accepts the message's own tag only.
#[verifier::external_body]
pub(crate) fn hmac_sha256_matches(key: &[u8], message: &[u8], tag: &Vec<u8>) -> (r: bool)
    ensures
        r == (tag@ == hmac_tag(key@, message@)),
{
    let mut mac = hmac::Hmac::<sha2::Sha256>::new_from_slice(key).unwrap();
    mac.update(message);
    mac.verify_slice(tag).is_ok()
}

/// `Sha1::digest`. The digest has 20 bytes.
#[verifier::external_body]
pub(crate) fn sha1_digest(data: &Vec<u8>) -> (r: Vec<u8>)
    ensures
        r@ == sha1_bytes(data@),
        r@.len() == 20,
{
    sha1::Sha1::digest(data).to_vec()
}

/// `String::from_utf8_lossy`. Bytes that are UTF-8 are read as they are.
#[verifier::external_body]
pub(crate) fn text_from_utf8_lossy(bytes: &Vec<u8>) -> (r: String)
    ensures
        r@ == lossy_text(bytes@),
        valid_utf8(bytes@) ==> r@ == decode_utf8(bytes@),
{
    String::from_utf8_lossy(bytes).into_owned()
}

} // verus!
