//! From decoded bytes to text.
//!
//! The decoder emits bytes. They become text only if they are well-formed
//! UTF-8; nothing in the decoder makes them so.

use vstd::prelude::*;
use vstd::utf8::{decode_utf8, encode_utf8, encode_utf8_decode_utf8, valid_utf8};
use crate::decoder::decode;
use crate::machine::decode_spec;

verus! {

/// The text that a fragment decodes to, or `None` where the decoded bytes are
/// not well-formed UTF-8.
pub open spec fn decoded_text(fragment: Seq<char>) -> Option<Seq<char>> {
    if valid_utf8(decode_spec(fragment)) {
        Some(decode_utf8(decode_spec(fragment)))
    } else {
        None
    }
}

/// Calls `String::from_utf8` of std, which is not proved here. The contract
/// claims what std documents: the call succeeds exactly on well-formed UTF-8,
/// and the string then holds the bytes that were given.
#[verifier::external_body]
fn string_from_utf8(bytes: Vec<u8>) -> (text: Option<String>)
    ensures
        text is Some <==> valid_utf8(bytes@),
        text matches Some(s) ==> encode_utf8(s@) == bytes@,
{
    match String::from_utf8(bytes) {
        Ok(s) => Some(s),
        Err(_) => None,
    }
}

/// Decodes a raw fragment into text, or returns `None` where the decoded bytes
/// are not well-formed UTF-8.
pub fn decode_text(fragment: &str) -> (text: Option<String>)
    ensures
        text.deep_view() == decoded_text(fragment@),
{
    let text = string_from_utf8(decode(fragment));
    proof {
        if text is Some {
            encode_utf8_decode_utf8(text->0@);
        }
    }
    text
}

/// Decodes a raw fragment whose decoded bytes are well-formed UTF-8 into text.
pub fn from_utf16(fragment: &str) -> (text: String)
    requires
        valid_utf8(decode_spec(fragment@)),
    ensures
        text@ == decode_utf8(decode_spec(fragment@)),
{
    let text = string_from_utf8(decode(fragment)).unwrap();
    proof {
        encode_utf8_decode_utf8(text@);
    }
    text
}

} // verus!
