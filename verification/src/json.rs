//! Text as a part: a string travels as its JSON form, which holds no line end.
//!
//! The JSON form is made and read by `rustc_serialize`. Nothing is assumed of
//! it beyond that the same input gives the same output: a string is put on the
//! wire only after its JSON form was read back and gave the string again.

use vstd::prelude::*;
use vstd::utf8::{
    decode_utf8, encode_utf8, encode_utf8_decode_utf8, encode_utf8_valid_utf8, valid_utf8,
};
use rustc_serialize::json::{DecoderError, EncoderError};
use crate::buf_writer::{BufError, BufWriter};
use crate::part::{faithful, MessagePart};
use crate::text::{holds_byte, NEWLINE};

verus! {

/// The error of `rustc_serialize::json::encode`; nothing is read from it.
#[verifier::external_type_specification]
#[verifier::external_body]
pub struct ExEncoderError(EncoderError);

/// The error of `rustc_serialize::json::decode`; nothing is read from it.
#[verifier::external_type_specification]
#[verifier::external_body]
pub struct ExDecoderError(DecoderError);

/// The JSON text that `rustc_serialize::json::encode` gives for a string, or
/// `None` where it reports an error.
pub uninterp spec fn json_string_text(value: Seq<char>) -> Option<Seq<char>>;

/// The string that `rustc_serialize::json::decode` reads from a JSON text, or
/// `None` where it reports an error.
pub uninterp spec fn json_string_value(text: Seq<char>) -> Option<Seq<char>>;

/// Calls `rustc_serialize::json::encode` on a string. The contract only gives
/// the outcome its name: what the call returns depends on the string alone.
#[verifier::external_body]
fn encode_string(value: &String) -> (r: Result<String, EncoderError>)
    ensures
        r is Ok <==> json_string_text(value@) is Some,
        r is Ok ==> r->Ok_0@ == json_string_text(value@)->0,
{
    rustc_serialize::json::encode(value)
}

/// Calls `rustc_serialize::json::decode` for a string, on a text that starts
/// with a quotation mark, so that the parser reads a string and never a
/// number, whose exponent it adds up unchecked. The contract only gives the
/// outcome its name: what the call returns depends on the text alone.
#[verifier::external_body]
fn decode_string(text: &str) -> (r: Result<String, DecoderError>)
    requires
        text@.len() > 0,
        text@[0] == '"',
    ensures
        r is Ok <==> json_string_value(text@) is Some,
        r is Ok ==> r->Ok_0@ == json_string_value(text@)->0,
{
    rustc_serialize::json::decode(text)
}

/// `text` is the JSON form in which `value` may travel: it starts with a
/// quotation mark, holds no line end, and is read back as `value`.
pub open spec fn travels_as(value: Seq<char>, text: Seq<char>) -> bool {
    &&& text.len() > 0
    &&& text[0] == '"'
    &&& encode_utf8(text).len() > 0
    &&& !encode_utf8(text).contains(NEWLINE)
    &&& json_string_value(text) == Some(value)
}

/// Whether `text` is the JSON form in which `value` may travel.
pub fn check_travels_as(value: &String, text: &str) -> (ok: bool)
    ensures
        ok == travels_as(value@, text@),
{
    if text.is_empty() || text.get_char(0) != '"' {
        return false;
    }
    let bytes = text.as_bytes();
    if bytes.len() == 0 || holds_byte(bytes, NEWLINE) {
        return false;
    }
    match decode_string(text) {
        Ok(back) => back == *value,
        Err(_) => false,
    }
}

impl MessagePart for String {
    /// The UTF-8 bytes of the string's JSON form, where that form is one in
    /// which the string may travel.
    open spec fn wire(value: Seq<char>) -> Option<Seq<u8>> {
        if json_string_text(value) is Some && travels_as(value, json_string_text(value)->0) {
            Some(encode_utf8(json_string_text(value)->0))
        } else {
            None
        }
    }

    /// The string that a JSON text starting with a quotation mark stands for.
    open spec fn parse(line: Seq<u8>) -> Option<Seq<char>> {
        let text = decode_utf8(line);
        if valid_utf8(line) && text.len() > 0 && text[0] == '"' {
            json_string_value(text)
        } else {
            None
        }
    }

    fn write(&self, writer: &mut BufWriter) -> (r: Result<(), BufError>) {
        let text = match encode_string(self) {
            Ok(text) => text,
            Err(_) => {
                return Err(BufError::Unencodable);
            },
        };
        if !check_travels_as(self, text.as_str()) {
            return Err(BufError::Unencodable);
        }
        writer.write(text.as_str().as_bytes())
    }

    fn read(line: &str) -> (r: Result<String, String>) {
        proof {
            encode_utf8_valid_utf8(line@);
            encode_utf8_decode_utf8(line@);
        }
        if line.is_empty() || line.get_char(0) != '"' {
            return Err("Not a JSON string".to_owned());
        }
        match decode_string(line) {
            Ok(value) => Ok(value),
            Err(_) => Err("Error decoding JSON string".to_owned()),
        }
    }
}

/// Strings are faithful parts.
pub proof fn lemma_string_faithful()
    ensures
        faithful::<String>(),
{
    assert forall|value: Seq<char>| #[trigger]
        <String as MessagePart>::wire(value) is Some implies {
        let bytes = <String as MessagePart>::wire(value)->0;
        &&& bytes.len() > 0
        &&& !bytes.contains(NEWLINE)
        &&& valid_utf8(bytes)
        &&& <String as MessagePart>::parse(bytes) == Some(value)
    } by {
        let text = json_string_text(value)->0;
        encode_utf8_valid_utf8(text);
        encode_utf8_decode_utf8(text);
    }
}

} // verus!
