//! The calls into `serde_json` and `libflate`. Nothing in this file is proved:
//! each contract says what the rest of the library takes on trust.

use vstd::prelude::*;
use crate::json::Json;
use crate::json::Node;

verus! {

/// `serde_json::Value`, which only passes between the functions of this file.
#[verifier::external_type_specification]
#[verifier::external_body]
pub struct ExValue(serde_json::Value);

/// What `serde_json::from_slice` makes of a text: the document it holds, or
/// the parser's message.
pub uninterp spec fn parsed(text: Seq<u8>) -> Result<Node, Seq<char>>;

/// What `serde_json::to_vec_pretty` prints for a document, or the
/// serializer's message.
pub uninterp spec fn printed(doc: Node) -> Result<Seq<u8>, Seq<char>>;

/// What `libflate::gzip::Decoder` reads out of a gzip stream, or the message
/// of the error it stops on.
pub uninterp spec fn inflated(stream: Seq<u8>) -> Result<Seq<u8>, Seq<char>>;

/// Rebuilds a `serde_json::Value` as a `Json`, node by node: scalars, strings
/// and numbers are moved; items keep their order, members the order in which
/// `serde_json::Map` walks them, which with its feature `preserve_order` is
/// that of the text. Nothing is claimed of it here: `parse` speaks for both.
#[verifier::external_body]
fn lift(value: serde_json::Value) -> Json {
    match value {
        serde_json::Value::Null => Json::Null,
        serde_json::Value::Bool(b) => Json::Bool(b),
        serde_json::Value::Number(n) => Json::Number(n),
        serde_json::Value::String(s) => Json::String(s),
        serde_json::Value::Array(a) => Json::Array(a.into_iter().map(lift).collect()),
        serde_json::Value::Object(m) => Json::Object(
            m.into_iter().map(|(k, v)| (k, lift(v))).collect(),
        ),
    }
}

/// Rebuilds a `Json` as a `serde_json::Value`, node by node, the members put
/// into a `serde_json::Map` in their order. Nothing is claimed of it here:
/// `print` speaks for both.
#[verifier::external_body]
fn lower(doc: &Json) -> serde_json::Value {
    match doc {
        Json::Null => serde_json::Value::Null,
        Json::Bool(b) => serde_json::Value::Bool(*b),
        Json::Number(n) => serde_json::Value::Number(n.clone()),
        Json::String(s) => serde_json::Value::String(s.clone()),
        Json::Array(a) => serde_json::Value::Array(a.iter().map(lower).collect()),
        Json::Object(m) => serde_json::Value::Object(
            m.iter().map(|(k, v)| (k.clone(), lower(v))).collect(),
        ),
    }
}

/// `serde_json::from_slice`, reading a `serde_json::Value`. The contract
/// claims only that the outcome is a function of the text.
#[verifier::external_body]
pub(crate) fn parse(text: &[u8]) -> (r: Result<Json, String>)
    ensures
        match r {
            Ok(doc) => parsed(text@) == Ok::<Node, Seq<char>>(doc@),
            Err(message) => parsed(text@) == Err::<Node, Seq<char>>(message@),
        },
{
    match serde_json::from_slice::<serde_json::Value>(text) {
        Ok(value) => Ok(lift(value)),
        Err(e) => Err(e.to_string()),
    }
}

/// `serde_json::to_vec_pretty`, printing a `serde_json::Value`. The contract
/// claims only that the outcome is a function of the document.
#[verifier::external_body]
pub(crate) fn print(doc: &Json) -> (r: Result<Vec<u8>, String>)
    ensures
        match r {
            Ok(text) => printed(doc@) == Ok::<Seq<u8>, Seq<char>>(text@),
            Err(message) => printed(doc@) == Err::<Seq<u8>, Seq<char>>(message@),
        },
{
    match serde_json::to_vec_pretty(&lower(doc)) {
        Ok(text) => Ok(text),
        Err(e) => Err(e.to_string()),
    }
}

/// `libflate::gzip::Decoder::new` and `read_to_end` on it. The contract claims
/// only that the outcome is a function of the stream.
#[verifier::external_body]
pub(crate) fn inflate(stream: &[u8]) -> (r: Result<Vec<u8>, String>)
    ensures
        match r {
            Ok(plain) => inflated(stream@) == Ok::<Seq<u8>, Seq<char>>(plain@),
            Err(message) => inflated(stream@) == Err::<Seq<u8>, Seq<char>>(message@),
        },
{
    let mut plain = Vec::new();
    match libflate::gzip::Decoder::new(stream) {
        Ok(mut decoder) => match std::io::Read::read_to_end(&mut decoder, &mut plain) {
            Ok(_) => Ok(plain),
            Err(e) => Err(e.to_string()),
        },
        Err(e) => Err(e.to_string()),
    }
}

/// `libflate::gzip::Encoder::new`, `write_all` and `finish` on it. The header
/// that the encoder writes holds the time of the call, so nothing is claimed
/// of the bytes that come back.
#[verifier::external_body]
pub(crate) fn deflate(plain: &[u8]) -> (r: Result<Vec<u8>, String>) {
    match libflate::gzip::Encoder::new(Vec::new()) {
        Ok(mut encoder) => match std::io::Write::write_all(&mut encoder, plain) {
            Ok(_) => encoder.finish().into_result().map_err(|e| e.to_string()),
            Err(e) => Err(e.to_string()),
        },
        Err(e) => Err(e.to_string()),
    }
}

} // verus!
