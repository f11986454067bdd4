//! The columns that the store answers with, as JSON values.

use base64::Engine;
use crate::json::{finite_bits, is_finite_bits, json_ok, Json, JsonView, Number};
use vstd::prelude::*;
use vstd::string::*;

verus! {

/// The text that the standard base64 alphabet, with padding, gives for `bytes`.
pub uninterp spec fn base64_standard(bytes: Seq<u8>) -> Seq<char>;

/// The text that `bytes` decode to as UTF-8, each invalid sequence replaced by U+FFFD.
pub uninterp spec fn utf8_lossy(bytes: Seq<u8>) -> Seq<char>;

/// Calls `base64::Engine::encode` on `base64::engine::general_purpose::STANDARD`: the
/// result is the standard base64 text of the bytes. The call fails only where the length
/// of the text does not fit a `usize`, which no `Vec<u8>` reaches.
#[verifier::external_body]
fn encode_base64(bytes: &Vec<u8>) -> (text: String)
    ensures
        text@ == base64_standard(bytes@),
{
    base64::engine::general_purpose::STANDARD.encode(bytes)
}

/// Calls `String::from_utf8_lossy`: the result is the text of the bytes, with U+FFFD in
/// place of what is no UTF-8.
#[verifier::external_body]
fn decode_utf8_lossy(bytes: &Vec<u8>) -> (text: String)
    ensures
        text@ == utf8_lossy(bytes@),
{
    String::from_utf8_lossy(bytes).into_owned()
}

/// The first column of a row as the store holds it. `Real` holds the bits of the double.
#[derive(Debug, PartialEq)]
pub enum Column {
    Text(Vec<u8>),
    Integer(i64),
    Real(u64),
    Blob(Vec<u8>),
    Null,
}

/// The JSON value that a column stands for: text as a string, an integer as a whole
/// number, a finite real as a number and any other real as null, a blob as the string of
/// its base64 text.
pub open spec fn column_json(c: Column) -> JsonView {
    match c {
        Column::Text(bytes) => JsonView::String(utf8_lossy(bytes@)),
        Column::Integer(i) => JsonView::Number(
            if i < 0 {
                Number::NegInt(i)
            } else {
                Number::PosInt(i as u64)
            },
        ),
        Column::Real(bits) => if is_finite_bits(bits) {
            JsonView::Number(Number::Float(bits))
        } else {
            JsonView::Null
        },
        Column::Blob(bytes) => JsonView::String(base64_standard(bytes@)),
        Column::Null => JsonView::Null,
    }
}

/// The JSON value of a column.
pub fn decode_column(column: &Column) -> (value: Json)
    ensures
        value@ == column_json(*column),
{
    match column {
        Column::Text(bytes) => Json::String(decode_utf8_lossy(bytes)),
        Column::Integer(i) => Json::Number(Number::from_i64(*i)),
        Column::Real(bits) => if finite_bits(*bits) {
            Json::Number(Number::Float(*bits))
        } else {
            Json::Null
        },
        Column::Blob(bytes) => Json::String(encode_base64(bytes)),
        Column::Null => Json::Null,
    }
}


/// The JSON value of a column is well formed.
pub proof fn lemma_column_json_is_ok(c: Column)
    ensures
        json_ok(column_json(c)),
{
}

} // verus!
