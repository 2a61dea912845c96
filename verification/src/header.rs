//! HTTP header names and values.
use vstd::prelude::*;
use vstd::utf8::*;

verus! {

/// Whether `b` is visible ASCII, a space or a tab.
pub open spec fn is_visible_byte(b: u8) -> bool {
    32 <= b < 127 || b == 9
}

/// Whether `b` may stand in a header value.
pub open spec fn is_value_byte(b: u8) -> bool {
    (b >= 32 && b != 127) || b == 9
}

/// Whether every byte of `value` is visible ASCII, a space or a tab.
pub open spec fn is_visible(value: Seq<u8>) -> bool {
    forall|i: int| 0 <= i < value.len() ==> is_visible_byte(#[trigger] value[i])
}

/// Whether `text` can be sent as a header value.
pub open spec fn is_header_value(text: Seq<char>) -> bool {
    let bytes = encode_utf8(text);
    forall|i: int| 0 <= i < bytes.len() ==> is_value_byte(#[trigger] bytes[i])
}

/// The text that holds one character for each byte.
pub open spec fn bytes_as_text(bytes: Seq<u8>) -> Seq<char> {
    Seq::new(bytes.len(), |i: int| bytes[i] as char)
}

/// Whether `b` may stand in a header name.
pub open spec fn is_name_byte(b: u8) -> bool {
    ||| 0x30 <= b <= 0x39
    ||| 0x41 <= b <= 0x5a
    ||| 0x5e <= b <= 0x7a
    ||| b == 0x21
    ||| 0x23 <= b <= 0x27
    ||| b == 0x2a
    ||| b == 0x2b
    ||| b == 0x2d
    ||| b == 0x2e
    ||| b == 0x7c
    ||| b == 0x7e
}

/// `b` in lower case.
pub open spec fn lower_byte(b: u8) -> u8 {
    if 0x41 <= b <= 0x5a {
        (b + 0x20) as u8
    } else {
        b
    }
}

/// Longest header name that is accepted, in bytes.
pub open spec fn max_name_length() -> nat {
    65535
}

/// Whether `name` is a header name.
pub open spec fn is_header_name(name: Seq<char>) -> bool {
    let bytes = encode_utf8(name);
    &&& 0 < bytes.len() <= max_name_length()
    &&& forall|i: int| 0 <= i < bytes.len() ==> is_name_byte(#[trigger] bytes[i])
}

/// `name` in the lower-case form in which header names are compared.
pub open spec fn normal_name(name: Seq<char>) -> Seq<char> {
    Seq::new(encode_utf8(name).len(), |i: int| lower_byte(encode_utf8(name)[i]) as char)
}

/// Whether `name` starts with `prefix`, whatever the case of its letters.
pub open spec fn has_name_prefix(name: Seq<char>, prefix: Seq<char>) -> bool {
    let bytes = encode_utf8(name);
    &&& prefix.len() <= bytes.len()
    &&& forall|i: int|
        0 <= i < prefix.len() ==> lower_byte(#[trigger] bytes[i]) as char == prefix[i]
}

/// Whether the proxy keeps `name` to itself.
pub open spec fn is_reserved_name(name: Seq<char>) -> bool {
    ||| has_name_prefix(name, "x-praxis-"@)
    ||| has_name_prefix(name, "x-ext-protocol-"@)
    ||| has_name_prefix(name, "x-ext-agent-"@)
}

/// `http::HeaderValue::to_str` on the value that holds the bytes `value`: the
/// text when every byte is visible ASCII, a space or a tab, and nothing
/// otherwise. Bytes that no header value can hold are not visible either.
#[verifier::external_body]
pub(crate) fn header_text(value: &[u8]) -> (r: Option<String>)
    ensures
        r is Some <==> is_visible(value@),
        r matches Some(text) ==> text@ == bytes_as_text(value@),
{
    match http::HeaderValue::from_bytes(value) {
        Ok(held) => match held.to_str() {
            Ok(text) => Some(text.to_owned()),
            Err(_) => None,
        },
        Err(_) => None,
    }
}

/// What is said of a text that no header value can hold.
pub open spec fn header_value_refusal() -> Seq<char> {
    "failed to parse header value"@
}

/// `http::HeaderValue::from_str`, with the error as text: succeeds when every
/// byte of `text` is at least 32 and not 127, or is a tab. There is but one
/// error.
#[verifier::external_body]
pub(crate) fn check_header_value(text: &str) -> (r: Result<(), String>)
    ensures
        r is Ok <==> is_header_value(text@),
        r is Err ==> r->Err_0@ == header_value_refusal(),
{
    match http::HeaderValue::from_str(text) {
        Ok(_) => Ok(()),
        Err(e) => Err(e.to_string()),
    }
}

/// `http::HeaderName::from_bytes`: the lower-case name when `name` holds 1 to
/// 65535 token characters, and nothing otherwise.
#[verifier::external_body]
pub(crate) fn header_name(name: &str) -> (r: Option<String>)
    ensures
        r is Some <==> is_header_name(name@),
        r matches Some(normal) ==> normal@ == normal_name(name@),
{
    match http::HeaderName::from_bytes(name.as_bytes()) {
        Ok(held) => Some(held.as_str().to_owned()),
        Err(_) => None,
    }
}

/// `praxis_core::reserved_headers::is_reserved`: whether `name` starts with one
/// of the three reserved prefixes, whatever the case of its letters.
#[verifier::external_body]
pub(crate) fn is_reserved(name: &str) -> (r: bool)
    ensures
        r == is_reserved_name(name@),
{
    praxis_core::reserved_headers::is_reserved(name)
}

} // verus!
