//! Digests, message authentication and their text forms.

use vstd::prelude::*;
use vstd::string::*;
use crate::text::{hex_token, is_hex_token, is_lower_hex, lower_hex, utf8};
use base64::Engine;
use hmac::Mac;
use sha2::Digest;
use subtle::ConstantTimeEq;

verus! {

/// The SHA-256 digest of some bytes.
pub uninterp spec fn sha256(bytes: Seq<u8>) -> Seq<u8>;

/// The HMAC-SHA-256 code of a message under a key.
pub uninterp spec fn hmac_sha256(key: Seq<u8>, message: Seq<u8>) -> Seq<u8>;

/// What URL-safe base64 without padding decodes a text to, if it is such a text.
pub uninterp spec fn base64url_decoded(text: Seq<char>) -> Option<Seq<u8>>;

/// The URL-safe base64 text, without padding, of some bytes.
pub uninterp spec fn base64url_encoded(bytes: Seq<u8>) -> Seq<char>;

/// The bytes that a running digest has taken in so far.
pub uninterp spec fn absorbed(hasher: Sha256State) -> Seq<u8>;

/// `sha2::Sha256`, a digest that takes its input piece by piece.
#[verifier::external_body]
pub struct Sha256State {
    inner: sha2::Sha256,
}

/// `Sha256::new`: a digest that has taken in nothing.
#[verifier::external_body]
pub(crate) fn sha256_start() -> (r: Sha256State)
    ensures
        absorbed(r) == Seq::<u8>::empty(),
{
    Sha256State { inner: sha2::Sha256::new() }
}

/// `Sha256::update`: takes in the bytes after those already taken in.
#[verifier::external_body]
pub(crate) fn sha256_update(hasher: &mut Sha256State, bytes: &[u8])
    ensures
        absorbed(*final(hasher)) == absorbed(*old(hasher)) + bytes@,
{
    hasher.inner.update(bytes);
}

/// `Sha256::finalize`: the digest, of 32 bytes, of all that was taken in.
#[verifier::external_body]
pub(crate) fn sha256_finish(hasher: Sha256State) -> (r: Vec<u8>)
    ensures
        r@ == sha256(absorbed(hasher)),
        r@.len() == 32,
{
    hasher.inner.finalize().to_vec()
}

/// `Sha256::digest`: the digest, of 32 bytes, of all bytes at once.
#[verifier::external_body]
pub(crate) fn sha256_once(bytes: &[u8]) -> (r: Vec<u8>)
    ensures
        r@ == sha256(bytes@),
        r@.len() == 32,
{
    sha2::Sha256::digest(bytes).to_vec()
}

/// `Hmac::<Sha256>` over one key and one message: a code of 32 bytes. A key of
/// any length is accepted.
#[verifier::external_body]
pub(crate) fn hmac_sha256_once(key: &[u8], message: &[u8]) -> (r: Vec<u8>)
    ensures
        r@ == hmac_sha256(key@, message@),
        r@.len() == 32,
{
    let mut mac = hmac::Hmac::<sha2::Sha256>::new_from_slice(key).expect("any key length");
    mac.update(message);
    mac.finalize().into_bytes().to_vec()
}

/// `ConstantTimeEq::ct_eq` on byte slices: equal length and equal bytes.
#[verifier::external_body]
pub(crate) fn constant_time_eq(a: &[u8], b: &[u8]) -> (r: bool)
    ensures
        r == (a@ == b@),
{
    bool::from(a.ct_eq(b))
}

/// `URL_SAFE_NO_PAD.decode`: the bytes of a text in that encoding.
#[verifier::external_body]
pub(crate) fn base64url_decode(text: &str) -> (r: Option<Vec<u8>>)
    ensures
        r is Some == base64url_decoded(text@) is Some,
        r is Some ==> r->0@ == base64url_decoded(text@)->0,
{
    base64::engine::general_purpose::URL_SAFE_NO_PAD.decode(text).ok()
}

/// `URL_SAFE_NO_PAD.encode`: the text of some bytes, which decodes to those
/// bytes again.
#[verifier::external_body]
pub(crate) fn base64url_encode(bytes: &[u8]) -> (r: String)
    requires
        bytes@.len() <= 65536,
    ensures
        r@ == base64url_encoded(bytes@),
        base64url_decoded(r@) == Some(bytes@),
{
    base64::engine::general_purpose::URL_SAFE_NO_PAD.encode(bytes)
}

/// The lower-case hexadecimal digit of a value below sixteen.
pub open spec fn hex_digit(n: int) -> char {
    if n < 10 {
        (48 + n) as u8 as char
    } else {
        (87 + n) as u8 as char
    }
}

/// The lower-case hexadecimal text of some bytes.
pub open spec fn hex_text(bytes: Seq<u8>) -> Seq<char>
    decreases bytes.len(),
{
    if bytes.len() == 0 {
        Seq::empty()
    } else {
        hex_text(bytes.drop_last()).push(hex_digit(bytes.last() as int / 16)).push(
            hex_digit(bytes.last() as int % 16),
        )
    }
}

/// The SHA-256 digest of some bytes as hexadecimal text.
pub open spec fn sha256_text(bytes: Seq<u8>) -> Seq<char> {
    hex_text(sha256(bytes))
}

/// A character that is a lower-case hexadecimal digit.
pub open spec fn is_hex_char(c: char) -> bool {
    ('0' <= c && c <= '9') || ('a' <= c && c <= 'f')
}

/// A hexadecimal text has two digits for each byte.
pub proof fn lemma_hex_text_shape(bytes: Seq<u8>)
    ensures
        hex_text(bytes).len() == 2 * bytes.len(),
        forall|i: int| 0 <= i < hex_text(bytes).len() ==> is_hex_char(#[trigger] hex_text(bytes)[i]),
    decreases bytes.len(),
{
    if bytes.len() > 0 {
        lemma_hex_text_shape(bytes.drop_last());
    }
}

/// A text of hexadecimal digits has one byte for each of them.
pub proof fn lemma_hex_chars_are_bytes(s: Seq<char>)
    requires
        forall|i: int| 0 <= i < s.len() ==> is_hex_char(#[trigger] s[i]),
    ensures
        utf8(s).len() == s.len(),
        lower_hex(utf8(s)),
{
    assert(vstd::utf8::is_ascii_chars(s)) by {
        assert forall|i: int| 0 <= i < s.len() implies '\0' <= #[trigger] s[i] <= '\u{7f}' by {
            assert(is_hex_char(s[i]));
        }
    }
    vstd::utf8::is_ascii_chars_encode_utf8(s);
    assert forall|i: int| 0 <= i < utf8(s).len() implies is_lower_hex(#[trigger] utf8(s)[i]) by {
        assert(is_hex_char(s[i]));
        assert(utf8(s)[i] == s[i] as u8);
    }
}

/// The hexadecimal text of some bytes.
pub fn hex(bytes: &[u8]) -> (r: String)
    ensures
        r@ == hex_text(bytes@),
{
    let mut out = String::new();
    let mut i: usize = 0;
    while i < bytes.len()
        invariant
            i <= bytes.len(),
            out@ == hex_text(bytes@.take(i as int)),
        decreases bytes.len() - i,
    {
        let b: u8 = bytes[i];
        let high: u8 = b / 16;
        let low: u8 = b % 16;
        out.push(if high < 10 { (48 + high) as char } else { (87 + high) as char });
        out.push(if low < 10 { (48 + low) as char } else { (87 + low) as char });
        assert(bytes@.take(i + 1).drop_last() =~= bytes@.take(i as int));
        i += 1;
    }
    assert(bytes@.take(i as int) =~= bytes@);
    out
}

/// The SHA-256 digest of some bytes as hexadecimal text.
pub fn sha256_bytes(bytes: &[u8]) -> (r: String)
    ensures
        r@ == sha256_text(bytes@),
        hex_token(r@, 64),
{
    let digest = sha256_once(bytes);
    proof {
        lemma_hex_text_shape(digest@);
        lemma_hex_chars_are_bytes(hex_text(digest@));
    }
    hex(digest.as_slice())
}

/// Ends a running digest and gives it as hexadecimal text.
pub fn finish_hex(hasher: Sha256State) -> (r: String)
    ensures
        r@ == sha256_text(absorbed(hasher)),
        hex_token(r@, 64),
{
    let digest = sha256_finish(hasher);
    proof {
        lemma_hex_text_shape(digest@);
        lemma_hex_chars_are_bytes(hex_text(digest@));
    }
    hex(digest.as_slice())
}

/// A digest as it is recorded: 64 lower-case hexadecimal digits.
pub open spec fn digest_ok(s: Seq<char>) -> bool {
    hex_token(s, 64)
}

/// Whether a text is a digest as it is recorded.
pub fn valid_digest(value: &str) -> (r: bool)
    ensures
        r == digest_ok(value@),
{
    is_hex_token(value, 64)
}

/// A byte is two hexadecimal digits, the higher one first, and the digits of several bytes
/// stand in their order.
pub proof fn law_each_byte_is_two_digits(bytes: Seq<u8>, b: u8)
    ensures
        hex_text(bytes.push(b)) == hex_text(bytes) + seq![
            hex_digit(b as int / 16),
            hex_digit(b as int % 16),
        ],
        hex_text(Seq::empty()) == Seq::<char>::empty(),
        hex_text(bytes).len() == 2 * bytes.len(),
    decreases bytes.len(),
{
    assert(bytes.push(b).drop_last() =~= bytes);
    assert(hex_text(bytes.push(b)) =~= hex_text(bytes) + seq![
        hex_digit(b as int / 16),
        hex_digit(b as int % 16),
    ]);
    if bytes.len() > 0 {
        law_each_byte_is_two_digits(bytes.drop_last(), b);
    }
}

/// The digits are those from 0 to 9 and then the small letters from a to f.
pub proof fn law_digits_go_on_with_small_letters(n: int)
    ensures
        0 <= n < 10 ==> hex_digit(n) as u32 == '0' as u32 + n,
        10 <= n < 16 ==> hex_digit(n) as u32 == 'a' as u32 + (n - 10),
{
}

/// A recorded digest is 64 bytes, each a digit or a small letter from a to f.
pub proof fn law_recorded_digests_are_hexadecimal(s: Seq<char>)
    ensures
        digest_ok(s) <==> (utf8(s).len() == 64 && forall|i: int|
            0 <= i < utf8(s).len() ==> is_lower_hex(#[trigger] utf8(s)[i])),
{
}

} // verus!
