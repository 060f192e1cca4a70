//! What the parts that speak over the network have in common.

use vstd::prelude::*;
use vstd::string::*;
use crate::text::{byte_len, utf8};

verus! {

/// A character of the category of control characters.
pub open spec fn is_control(c: char) -> bool {
    (c as u32) < 32 || 127 <= (c as u32) < 160
}

/// Whether a character is a control character.
pub fn char_is_control(c: char) -> (r: bool)
    ensures
        r == is_control(c),
{
    let code: u32 = c as u32;
    code < 32 || (127 <= code && code < 160)
}

/// A text without control characters.
pub open spec fn control_free(s: Seq<char>) -> bool {
    forall|i: int| 0 <= i < s.len() ==> !is_control(#[trigger] s[i])
}

/// Whether a text is without control characters.
pub fn is_control_free(s: &str) -> (r: bool)
    ensures
        r == control_free(s@),
{
    for c in it: s.chars()
        invariant
            it.seq() == s@,
            forall|k: int| 0 <= k < it.index() ==> !is_control(#[trigger] s@[k]),
    {
        if char_is_control(c) {
            assert(s@[it.index() as int] == c);
            return false;
        }
    }
    true
}

/// A text that is not empty, has at most some bytes and no control characters.
pub open spec fn bounded_control_free(s: Seq<char>, max: int) -> bool {
    s.len() > 0 && utf8(s).len() <= max && control_free(s)
}

/// Whether a text is not empty, has at most some bytes and no control characters.
pub fn is_bounded_control_free(s: &str, max: usize) -> (r: bool)
    ensures
        r == bounded_control_free(s@, max as int),
{
    !s.is_empty() && byte_len(s) <= max && is_control_free(s)
}

/// The text of an HTTP status: its number and its usual reason.
pub uninterp spec fn http_status_text(status: u16) -> Seq<char>;

/// `reqwest::StatusCode::from_u16` and its `to_string`: the text depends on the
/// number alone. Numbers of other than three digits are no HTTP status.
#[verifier::external_body]
pub(crate) fn status_text(status: u16) -> (r: String)
    requires
        100 <= status < 1000,
    ensures
        r@ == http_status_text(status),
{
    reqwest::StatusCode::from_u16(status).expect("a status of three digits").to_string()
}

/// The text of a header that must be there exactly once; a value that is no text
/// counts as one without.
pub open spec fn single(values: Seq<Option<String>>) -> Option<Seq<char>> {
    if values.len() == 1 && values[0] is Some {
        Some(values[0]->0@)
    } else {
        None
    }
}

/// Takes the text of a header that must be there exactly once.
pub fn single_header(values: &Vec<Option<String>>) -> (r: Option<&String>)
    ensures
        r is Some == single(values@) is Some,
        r is Some ==> Some(r->0@) == single(values@),
{
    if values.len() != 1 {
        return None;
    }
    match &values[0] {
        Some(text) => Some(text),
        None => None,
    }
}

/// There is room for more bytes in a body.
pub open spec fn room_for(body: Seq<u8>, chunk: Seq<u8>, max: usize) -> bool {
    (body.len() + chunk.len() <= max)
}

/// Takes a chunk into a body of at most some bytes; a chunk that is too much
/// leaves the body as it is.
pub fn add_chunk(body: &mut Vec<u8>, chunk: &[u8], max: usize) -> (r: bool)
    requires
        old(body)@.len() <= max,
    ensures
        r == room_for(old(body)@, chunk@, max),
        final(body)@ == if r {
            old(body)@ + chunk@
        } else {
            old(body)@
        },
{
    if chunk.len() > max - body.len() {
        return false;
    }
    body.extend_from_slice(chunk);
    assert(body@ =~= old(body)@ + chunk@);
    true
}

/// A bounded text is not empty, is within its bound, and holds no character below the
/// space, nor one from delete up to where the printable ones of Latin-1 begin.
pub proof fn law_bounded_texts_are_printable(s: Seq<char>, max: int)
    ensures
        bounded_control_free(s, max) <==> (0 < s.len() && utf8(s).len() <= max && forall|i: int|
            0 <= i < s.len() ==> 0x20 <= (#[trigger] s[i]) as u32 && (s[i] as u32 <= 0x7e
                || 0xa0 <= s[i] as u32)),
{
    if control_free(s) {
        assert forall|i: int| 0 <= i < s.len() implies 0x20 <= (#[trigger] s[i]) as u32 && (
        s[i] as u32 <= 0x7e || 0xa0 <= s[i] as u32) by {
            assert(!is_control(s[i]));
        }
    }
}

/// A header counts only where it is there once, and as a text.
pub proof fn law_headers_are_taken_once(values: Seq<Option<String>>, text: Seq<char>)
    ensures
        single(values) == Some(text) <==> (values.len() == 1 && values[0] is Some && values[0]->0@
            == text),
{
}

/// A body takes more bytes up to its limit, and not one beyond it.
pub proof fn law_bodies_are_taken_up_to_the_limit(body: Seq<u8>, chunk: Seq<u8>, max: usize)
    ensures
        room_for(body, chunk, max) <==> (body + chunk).len() <= max,
{
}

} // verus!
