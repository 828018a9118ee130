//! Typed encoding and decoding for the line-oriented Java properties format.
//!
//! A document is an ordered sequence of key/value records. The decoder turns
//! such a sequence into a typed value (a map, a struct-like record, or an
//! internally tagged variant), coercing each raw string through a per-field
//! type hint or, absent a hint, through a fixed inference cascade. The encoder
//! walks a typed value and emits records in field order. Line tokenizing,
//! escaping and character encodings are delegated to the `java_properties`
//! crate behind a small trusted boundary.

pub mod de;
pub mod laws;
pub mod model;
pub mod num;
pub mod ser;

use vstd::prelude::*;
use vstd::string::StringSliceAdditionalSpecFns;

use crate::de::{decode_result_view, decode_spec, latin1_lines, lines_of, utf8_lines, Deserializer};
use crate::model::{Shape, TopValue};
use crate::ser::{doc_bytes, encode_spec, Serializer};

verus! {

/// The character encodings selectable for reading and writing documents.
///
/// `Latin1` stands for the 8-bit windows-1252 encoding that the Java
/// properties format defaults to; `Utf8` is full Unicode.
#[derive(Clone, Copy, PartialEq, Eq, Structural, Debug)]
pub enum TextEncoding {
    Latin1,
    Utf8,
}

/// Decode a string, read as UTF-8, into a typed value of `shape`.
pub fn from_str(input: &str, shape: &Shape) -> (r: Result<TopValue, de::Error>)
    ensures
        match utf8_lines(input.spec_bytes()) {
            Option::Some(doc) => decode_result_view(r) == decode_spec(doc, *shape),
            Option::None => r matches Result::Err(e) && e@ matches de::ErrorV::Properties(_),
        },
{
    match Deserializer::from_str(input) {
        Result::Ok(d) => d.decode(shape),
        Result::Err(e) => Result::Err(e),
    }
}

/// Decode a byte slice, read in the default 8-bit encoding, into a typed
/// value of `shape`.
///
/// A Rust string's bytes want [`from_str`] instead, which reads UTF-8.
pub fn from_slice(input: &[u8], shape: &Shape) -> (r: Result<TopValue, de::Error>)
    ensures
        match latin1_lines(input@) {
            Option::Some(doc) => decode_result_view(r) == decode_spec(doc, *shape),
            Option::None => r matches Result::Err(e) && e@ matches de::ErrorV::Properties(_),
        },
{
    match Deserializer::from_slice(input) {
        Result::Ok(d) => d.decode(shape),
        Result::Err(e) => Result::Err(e),
    }
}

/// Decode a byte slice, read in the given encoding, into a typed value of
/// `shape`.
pub fn from_slice_with_encoding(input: &[u8], enc: TextEncoding, shape: &Shape) -> (r: Result<
    TopValue,
    de::Error,
>)
    ensures
        match lines_of(enc, input@) {
            Option::Some(doc) => decode_result_view(r) == decode_spec(doc, *shape),
            Option::None => r matches Result::Err(e) && e@ matches de::ErrorV::Properties(_),
        },
{
    match Deserializer::from_slice_with_encoding(input, enc) {
        Result::Ok(d) => d.decode(shape),
        Result::Err(e) => Result::Err(e),
    }
}

/// Encode a typed value as a byte document in the given encoding, with the
/// default separator and line ending. Every encodable value succeeds: the
/// sink is an in-memory buffer.
pub fn to_vec_with_encoding(value: &TopValue, enc: TextEncoding) -> (r: Result<
    Vec<u8>,
    ser::Error,
>)
    ensures
        match encode_spec(value@) {
            Result::Err(e) => r matches Result::Err(e2) && e2@ == e,
            Result::Ok(recs) => r matches Result::Ok(b) && b@ == doc_bytes(
                enc,
                recs,
                "="@,
                "\n"@,
            ),
        },
        enc == TextEncoding::Utf8 ==> (r matches Result::Ok(b)
            ==> vstd::utf8::valid_utf8(b@)),
{
    let mut s = Serializer::new_with_encoding(enc);
    proof {
        reveal_strlit("\n");
        assert(ser::eol_text(ser::LineEnd::Lf) == "\n"@);
        assert(vstd::utf8::valid_utf8(Seq::<u8>::empty()));
    }
    match s.serialize(value) {
        Result::Ok(()) => Result::Ok(s.into_bytes()),
        Result::Err(e) => Result::Err(e),
    }
}

/// Encode a typed value as a byte document in the default 8-bit encoding.
/// Every encodable value succeeds.
pub fn to_vec(value: &TopValue) -> (r: Result<Vec<u8>, ser::Error>)
    ensures
        match encode_spec(value@) {
            Result::Err(e) => r matches Result::Err(e2) && e2@ == e,
            Result::Ok(recs) => r matches Result::Ok(b) && b@ == doc_bytes(
                TextEncoding::Latin1,
                recs,
                "="@,
                "\n"@,
            ),
        },
{
    to_vec_with_encoding(value, TextEncoding::Latin1)
}

/// Relies on `String::from_utf8`: it succeeds exactly on valid UTF-8 and
/// keeps the bytes.
#[verifier::external_body]
fn string_from_utf8(bytes: Vec<u8>) -> (r: Option<String>)
    ensures
        match r {
            Option::Some(s) => vstd::utf8::valid_utf8(bytes@) && vstd::utf8::encode_utf8(s@)
                == bytes@,
            Option::None => !vstd::utf8::valid_utf8(bytes@),
        },
{
    String::from_utf8(bytes).ok()
}

/// Encode a typed value as a string; the result is a Rust string, so this
/// writes UTF-8. Every encodable value succeeds: the document's bytes are
/// valid UTF-8 by construction.
pub fn to_string(value: &TopValue) -> (r: Result<String, ser::Error>)
    ensures
        match encode_spec(value@) {
            Result::Err(e) => r matches Result::Err(e2) && e2@ == e,
            Result::Ok(recs) => r matches Result::Ok(s) && vstd::utf8::encode_utf8(s@)
                == doc_bytes(TextEncoding::Utf8, recs, "="@, "\n"@),
        },
{
    let bytes = match to_vec_with_encoding(value, TextEncoding::Utf8) {
        Result::Ok(b) => b,
        Result::Err(e) => {
            return Result::Err(e);
        },
    };
    match string_from_utf8(bytes) {
        Option::Some(s) => Result::Ok(s),
        Option::None => {
            proof {
                assert(false);
            }
            vstd::pervasive::unreached()
        },
    }
}

} // verus!
