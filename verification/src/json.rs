//! The trusted boundary around the JSON library's types and the UTF-8
//! decoding of frame bodies. The per-field accessors of a parsed message
//! stand beside `Message` itself; here are the declarations and wrappers
//! they rest on.

use vstd::prelude::*;

verus! {

/// serde_json's structured value, declared so it may stand in fields and
/// signatures; the verifier sees nothing inside it.
#[verifier::external_type_specification]
#[verifier::external_body]
pub struct ExValue(serde_json::Value);

/// Whether serde_json accepts this text as one JSON value; it decides
/// that from the characters alone.
pub uninterp spec fn json_wf(s: Seq<char>) -> bool;

/// Relies on String::from_utf8: it succeeds exactly on valid UTF-8 and
/// decodes the bytes to their characters.
#[verifier::external_body]
pub fn string_from_bytes(bytes: Vec<u8>) -> (r: Option<String>)
    ensures
        r is Some <==> vstd::utf8::valid_utf8(bytes@),
        r matches Some(t) ==> t@ == vstd::utf8::decode_utf8(bytes@),
{
    String::from_utf8(bytes).ok()
}

} // verus!
