//! Random bytes, and what is made of them.

use vstd::prelude::*;
use vstd::string::*;
use crate::digest::{hex, hex_text};
use crate::error::{failure, ManagedError, ManagedResult};
use crate::text::text_join;

verus! {

/// `getrandom::fill` on a buffer of a given length: that many bytes from the
/// operating system, or the text of its error. Nothing is claimed of the bytes
/// themselves.
#[verifier::external_body]
fn random_bytes(n: usize) -> (r: Result<Vec<u8>, String>)
    ensures
        r is Ok ==> r->Ok_0@.len() == n,
{
    let mut buffer = vec![0u8; n];
    match getrandom::fill(&mut buffer) {
        Ok(()) => Ok(buffer),
        Err(e) => Err(e.to_string()),
    }
}

/// The token made of some random bytes, or the failure without them.
pub fn hex_of(bytes: Result<Vec<u8>, String>) -> (r: ManagedResult<String>)
    ensures
        failure(r) == match bytes {
            Ok(_) => None,
            Err(e) => Some(("generation_failed"@, "randomness unavailable: "@ + e@)),
        },
        r is Ok ==> r->Ok_0@ == hex_text(bytes->Ok_0@),
{
    match bytes {
        Ok(bytes) => Ok(hex(bytes.as_slice())),
        Err(e) => Err(
            ManagedError::with_message(
                "generation_failed",
                text_join("randomness unavailable: ", e.as_str()),
            ),
        ),
    }
}

/// A token of sixteen random bytes in hexadecimal digits.
pub fn random_hex() -> (r: ManagedResult<String>)
    ensures
        r is Ok ==> exists|bytes: Seq<u8>| bytes.len() == 16 && r->Ok_0@ == hex_text(bytes),
        r is Err ==> r->Err_0@.0 == "generation_failed"@,
        r is Err ==> exists|e: Seq<char>| r->Err_0@.1 == #[trigger] ("randomness unavailable: "@ + e),
{
    let bytes = random_bytes(16);
    hex_of(bytes)
}

/// A nonce of 32 random bytes, if the operating system gives any.
pub fn random_nonce() -> (r: Option<Vec<u8>>)
    ensures
        r is Some ==> r->0@.len() == 32,
{
    match random_bytes(32) {
        Ok(bytes) => Some(bytes),
        Err(_) => None,
    }
}

/// How much longer a wait takes, in percent, from a random byte if there is one.
pub open spec fn jitter_of(byte: Option<u8>) -> u8 {
    match byte {
        Some(b) => (b % 26) as u8,
        None => 0,
    }
}

/// Takes the percentage by which a wait takes longer from a random byte.
pub fn jitter_from(byte: Option<u8>) -> (r: u8)
    ensures
        r == jitter_of(byte),
        r <= 25,
{
    match byte {
        Some(b) => b % 26,
        None => 0,
    }
}

/// A random percentage, at most 25, by which a wait takes longer.
pub fn jitter_percent() -> (r: u8)
    ensures
        r <= 25,
{
    match random_bytes(1) {
        Ok(bytes) => jitter_from(Some(bytes[0])),
        Err(_) => jitter_from(None),
    }
}

/// How often a registration is renewed at most, in milliseconds.
pub const RENEWAL_BASE_MS: u64 = 10_000;

/// By how much the time between two renewals may vary, in milliseconds.
pub const RENEWAL_JITTER_MS: u64 = 2_000;

/// The time until the next renewal for a random number, if there is one.
pub open spec fn renewal_of(random: Option<u16>) -> u64 {
    match random {
        Some(n) => (RENEWAL_BASE_MS + n % 2_001) as u64,
        None => RENEWAL_BASE_MS,
    }
}

/// The time until the next renewal for a random number, in milliseconds.
pub fn renewal_from(random: Option<u16>) -> (r: u64)
    ensures
        r == renewal_of(random),
        RENEWAL_BASE_MS <= r <= RENEWAL_BASE_MS + RENEWAL_JITTER_MS,
{
    match random {
        Some(n) => RENEWAL_BASE_MS + (n as u64) % (RENEWAL_JITTER_MS + 1),
        None => RENEWAL_BASE_MS,
    }
}

/// The time until the next renewal, in milliseconds.
pub fn renewal_delay() -> (r: u64)
    ensures
        RENEWAL_BASE_MS <= r <= RENEWAL_BASE_MS + RENEWAL_JITTER_MS,
{
    match random_bytes(2) {
        Ok(bytes) => renewal_from(Some((bytes[0] as u16) * 256 + bytes[1] as u16)),
        Err(_) => renewal_from(None),
    }
}

/// A wait takes up to a quarter longer; a renewal takes ten seconds and up to two more.
/// Without a random number there is no jitter.
pub proof fn law_jitter_is_bounded(byte: Option<u8>, random: Option<u16>)
    ensures
        jitter_of(byte) <= 25,
        byte is None ==> jitter_of(byte) == 0,
        byte is Some && byte->0 <= 25 ==> jitter_of(byte) == byte->0,
        10_000 <= renewal_of(random) <= 12_000,
        random is None ==> renewal_of(random) == 10_000,
        random is Some && random->0 <= 2_000 ==> renewal_of(random) == 10_000 + random->0,
{
}

} // verus!
