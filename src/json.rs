//! The JSON values that cross the transport, through serde_json.
use vstd::prelude::*;
use vstd::string::StringSliceAdditionalSpecFns;

verus! {

#[verifier::external_type_specification]
#[verifier::external_body]
pub struct ExValue(serde_json::Value);

#[verifier::external_type_specification]
#[verifier::external_body]
pub struct ExJsonError(serde_json::Error);

/// Whether `b` is the UTF-8 text of one JSON value, as serde_json reads it.
pub uninterp spec fn is_json(b: Seq<u8>) -> bool;

/// A lowercase hexadecimal digit.
pub open spec fn hex_digit(n: u8) -> u8 {
    if n < 10 {
        (48 + n) as u8
    } else {
        (87 + n) as u8
    }
}

/// How serde_json writes one byte of a string: `"` and `\` behind a
/// backslash, five control bytes by their letters, the other bytes below
/// 0x20 as `\u00xx`, and every other byte as it is.
pub open spec fn escape_byte(b: u8) -> Seq<u8> {
    if b == 34 {
        seq![92u8, 34]
    } else if b == 92 {
        seq![92u8, 92]
    } else if b == 8 {
        seq![92u8, 98]
    } else if b == 9 {
        seq![92u8, 116]
    } else if b == 10 {
        seq![92u8, 110]
    } else if b == 12 {
        seq![92u8, 102]
    } else if b == 13 {
        seq![92u8, 114]
    } else if b < 32 {
        seq![92u8, 117, 48, 48, hex_digit(b / 16), hex_digit(b % 16)]
    } else {
        seq![b]
    }
}

pub open spec fn escaped(b: Seq<u8>) -> Seq<u8>
    decreases b.len(),
{
    if b.len() == 0 {
        Seq::empty()
    } else {
        escaped(b.drop_last()) + escape_byte(b.last())
    }
}

/// The JSON string literal that serde_json writes for the text whose UTF-8
/// bytes are `b`.
pub open spec fn json_quoted(b: Seq<u8>) -> Seq<u8> {
    seq![34u8] + escaped(b) + seq![34u8]
}

/// The `id` member of the JSON object in `b`, where it is an unsigned integer
/// that fits in `u64`, as serde_json reads it.
pub uninterp spec fn reply_id(b: Seq<u8>) -> Option<u64>;

/// Relies on serde_json::from_slice: it reads a value exactly when the bytes
/// are one JSON text.
#[verifier::external_body]
pub(crate) fn parse_json(b: &[u8]) -> (r: Result<serde_json::Value, serde_json::Error>)
    ensures
        r is Ok == is_json(b@),
{
    serde_json::from_slice(b)
}

/// Relies on serde_json::to_vec on a `str` (`format_escaped_str` and its
/// `ESCAPE` table): it writes the text between quotes, escaped byte by byte,
/// and its only failure is one of the writer, which a `Vec` never gives.
#[verifier::external_body]
pub(crate) fn quote_json(s: &str) -> (r: Result<Vec<u8>, serde_json::Error>)
    ensures
        r is Ok,
        r is Ok ==> r->Ok_0@ == json_quoted(s.spec_bytes()),
{
    serde_json::to_vec(s)
}

/// Relies on serde_json::from_slice, Value::get and Value::as_u64: the
/// unsigned `id` member of the object that the bytes hold, if any.
#[verifier::external_body]
pub(crate) fn reply_id_of(b: &[u8]) -> (r: Option<u64>)
    ensures
        r == reply_id(b@),
{
    serde_json::from_slice::<serde_json::Value>(b).ok().and_then(|v| v.get("id").and_then(serde_json::Value::as_u64))
}

} // verus!
