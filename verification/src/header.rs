//! The `Range` header of a request, as a value that `reqwest` takes.

use vstd::prelude::*;
use vstd::pervasive::unreached;
use vstd::string::StringSliceAdditionalSpecFns;
use vstd::string::is_ascii_spec_bytes;
use crate::decimal::{is_digit, lemma_decimal_digits};
use crate::range::ByteRange;

verus! {

/// The value of one header of a request, as `reqwest` keeps it.
#[verifier::external_type_specification]
#[verifier::external_body]
pub struct ExHeaderValue(reqwest::header::HeaderValue);

/// The bytes that a header value holds.
pub uninterp spec fn header_bytes(value: reqwest::header::HeaderValue) -> Seq<u8>;

/// Whether a header value may hold the byte `b`: anything but the control
/// characters, the tab excepted.
pub open spec fn is_header_byte(b: u8) -> bool {
    (b >= 32 && b != 127) || b == 9
}

/// `reqwest::header::HeaderValue::from_str`. It accepts a text exactly when
/// each of its bytes may stand in a header value, and the value then holds the
/// bytes of the text.
#[verifier::external_body]
fn header_value_from_str(text: &str) -> (value: Option<reqwest::header::HeaderValue>)
    ensures
        value is Some <==> (forall|i: int|
            0 <= i < text.spec_bytes().len() ==> is_header_byte(#[trigger] text.spec_bytes()[i])),
        value matches Some(v) ==> header_bytes(v) == text.spec_bytes(),
{
    match reqwest::header::HeaderValue::from_str(text) {
        Ok(value) => Some(value),
        Err(_) => None,
    }
}

/// The wire form of `range`, byte for byte.
pub open spec fn wire_bytes(range: ByteRange) -> Seq<u8> {
    Seq::new(range.wire().len(), |i: int| range.wire()[i] as u8)
}

/// Whether `c` can stand in the wire form of a range: a digit, a hyphen, or a
/// letter of `bytes=`.
pub open spec fn is_wire_char(c: char) -> bool {
    is_digit(c) || c == '-' || c == '=' || c == 'b' || c == 'y' || c == 't' || c == 'e' || c == 's'
}

/// The wire form of a range is plain ASCII, made of digits, one hyphen and the
/// word `bytes=`.
pub proof fn lemma_wire_chars(range: ByteRange)
    ensures
        forall|i: int| 0 <= i < range.wire().len() ==> is_wire_char(#[trigger] range.wire()[i]),
        range.wire().len() >= 8,
{
    reveal_strlit("bytes=");
    reveal_strlit("-");
    match range {
        ByteRange::Bounded { start, end } => {
            lemma_decimal_digits(start as nat);
            lemma_decimal_digits(end as nat);
        },
        ByteRange::Open { start } => {
            lemma_decimal_digits(start as nat);
        },
    }
}

/// The value of the `Range` header that asks for `range`: its wire form, which
/// every header accepts.
pub fn range_value(range: &ByteRange) -> (value: reqwest::header::HeaderValue)
    ensures
        header_bytes(value) == wire_bytes(*range),
{
    let owned = range.to_wire();
    let text: &str = owned.as_str();
    proof {
        lemma_wire_chars(*range);
        assert(vstd::string::is_ascii(text));
        is_ascii_spec_bytes(text);
        assert(text.spec_bytes() =~= wire_bytes(*range));
    }
    match header_value_from_str(text) {
        Some(value) => value,
        None => unreached(),
    }
}

} // verus!
