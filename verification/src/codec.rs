//! From bytes to a document and back: gzip framing, the placeholders for the
//! literals that the strict grammar refuses, and the grammar itself.

use vstd::prelude::*;
use vstd::slice::slice_to_vec;
use crate::bridge::deflate;
use crate::bridge::inflate;
use crate::bridge::inflated;
use crate::bridge::parse;
use crate::bridge::parsed;
use crate::bridge::print;
use crate::bridge::printed;
use crate::error::DecodeError;
use crate::error::EncodeError;
use crate::error::Failure;
use crate::json::Json;
use crate::json::Node;
use crate::literals::free_of_placeholders;
use crate::literals::free_of_quoted_placeholders;
use crate::literals::lemma_restored_inverts_substituted;
use crate::literals::restore;
use crate::literals::restored;
use crate::literals::substitute;
use crate::literals::substituted;

verus! {

/// The text inside the framing: what the decompressor reads out of a gzip
/// stream, the bytes themselves where there is no framing.
pub open spec fn unframed(bytes: Seq<u8>, gzip: bool) -> Result<Seq<u8>, Failure> {
    if gzip {
        match inflated(bytes) {
            Ok(text) => Ok(text),
            Err(message) => Err(Failure::Compression(message)),
        }
    } else {
        Ok(bytes)
    }
}

/// The document that a text holds: what the parser makes of the text once
/// the literals have given way to their placeholders.
pub open spec fn decoded_text(text: Seq<u8>) -> Result<Node, Failure> {
    match parsed(substituted(text)) {
        Ok(doc) => Ok(doc),
        Err(message) => Err(Failure::Malformed(message)),
    }
}

/// The document that bytes hold.
pub open spec fn decoded(bytes: Seq<u8>, gzip: bool) -> Result<Node, Failure> {
    match unframed(bytes, gzip) {
        Ok(text) => decoded_text(text),
        Err(failure) => Err(failure),
    }
}

/// The text of a document: what the serializer prints, with the literals
/// back in the place of their placeholders.
pub open spec fn encoded_text(doc: Node) -> Result<Seq<u8>, Failure> {
    match printed(doc) {
        Ok(text) => Ok(restored(text)),
        Err(message) => Err(Failure::Serialization(message)),
    }
}

/// The literals survive reading and writing: where the serializer prints the
/// strict text as the parser read it, a text that holds none of the
/// placeholders is read and written back byte for byte, its literals as they
/// were.
pub proof fn lemma_literals_survive(text: Seq<u8>, doc: Node)
    requires
        free_of_placeholders(text),
        parsed(substituted(text)) == Ok::<Node, Seq<char>>(doc),
        printed(doc) == Ok::<Seq<u8>, Seq<char>>(substituted(text)),
    ensures
        decoded_text(text) == Ok::<Node, Failure>(doc),
        encoded_text(doc) == Ok::<Seq<u8>, Failure>(text),
{
    lemma_restored_inverts_substituted(text);
}

/// Takes the gzip framing off, if there is one.
pub fn unframe(bytes: &[u8], gzip: bool) -> (r: Result<Vec<u8>, DecodeError>)
    ensures
        match r {
            Ok(text) => unframed(bytes@, gzip) == Ok::<Seq<u8>, Failure>(text@),
            Err(e) => unframed(bytes@, gzip) == Err::<Seq<u8>, Failure>(e@),
        },
{
    if gzip {
        match inflate(bytes) {
            Ok(text) => Ok(text),
            Err(message) => Err(DecodeError::Compression(message)),
        }
    } else {
        Ok(slice_to_vec(bytes))
    }
}

/// Reads a text as a document. The three literals may stand in it as values.
pub fn decode_text(text: &[u8]) -> (r: Result<Json, DecodeError>)
    ensures
        match r {
            Ok(doc) => decoded_text(text@) == Ok::<Node, Failure>(doc@),
            Err(e) => decoded_text(text@) == Err::<Node, Failure>(e@),
        },
{
    let strict = substitute(text);
    match parse(strict.as_slice()) {
        Ok(doc) => Ok(doc),
        Err(message) => Err(DecodeError::Malformed(message)),
    }
}

/// Reads bytes as a document: takes the gzip framing off, if there is one,
/// and reads the text.
pub fn decode(bytes: &[u8], gzip: bool) -> (r: Result<Json, DecodeError>)
    ensures
        match r {
            Ok(doc) => decoded(bytes@, gzip) == Ok::<Node, Failure>(doc@),
            Err(e) => decoded(bytes@, gzip) == Err::<Node, Failure>(e@),
        },
{
    match unframe(bytes, gzip) {
        Ok(text) => decode_text(text.as_slice()),
        Err(e) => Err(e),
    }
}

/// Writes a document as text, pretty-printed, its members in their order.
/// No placeholder is left in the text as a string.
pub fn encode_text(doc: &Json) -> (r: Result<Vec<u8>, EncodeError>)
    ensures
        match r {
            Ok(text) => encoded_text(doc@) == Ok::<Seq<u8>, Failure>(text@)
                && free_of_quoted_placeholders(text@),
            Err(e) => encoded_text(doc@) == Err::<Seq<u8>, Failure>(e@),
        },
{
    match print(doc) {
        Ok(text) => Ok(restore(text.as_slice())),
        Err(message) => Err(EncodeError::Serialization(message)),
    }
}

/// Whether two byte strings are the same.
pub fn same_bytes(a: &[u8], b: &[u8]) -> (r: bool)
    ensures
        r == (a@ == b@),
{
    if a.len() != b.len() {
        return false;
    }
    let mut i: usize = 0;
    while i < a.len()
        invariant
            a.len() == b.len(),
            i <= a.len(),
            a@.subrange(0, i as int) == b@.subrange(0, i as int),
        decreases a.len() - i,
    {
        if a[i] != b[i] {
            return false;
        }
        assert(a@.subrange(0, i + 1) =~= a@.subrange(0, i as int).push(a@[i as int]));
        assert(b@.subrange(0, i + 1) =~= b@.subrange(0, i as int).push(b@[i as int]));
        i += 1;
    }
    assert(a@ =~= a@.subrange(0, i as int));
    assert(b@ =~= b@.subrange(0, i as int));
    true
}

/// What becomes of a text once the compressor has had it. The stream is
/// read back: it is handed on only if it holds the text. An error of the
/// compressor is handed on with its message.
pub fn checked_stream(text: &[u8], compressed: Result<Vec<u8>, String>) -> (r: Result<
    Vec<u8>,
    EncodeError,
>)
    ensures
        match compressed {
            Ok(stream) => match inflated(stream@) {
                Ok(back) => if back == text@ {
                    r == Ok::<Vec<u8>, EncodeError>(stream)
                } else {
                    r is Err && r->Err_0@ == Failure::Compression(
                        "the compressed stream does not hold the text"@,
                    )
                },
                Err(message) => r is Err && r->Err_0@ == Failure::Compression(message),
            },
            Err(message) => r == Err::<Vec<u8>, EncodeError>(EncodeError::Compression(message)),
        },
{
    match compressed {
        Ok(stream) => match inflate(stream.as_slice()) {
            Ok(back) => if same_bytes(back.as_slice(), text) {
                Ok(stream)
            } else {
                Err(
                    EncodeError::Compression(
                        "the compressed stream does not hold the text".to_owned(),
                    ),
                )
            },
            Err(message) => Err(EncodeError::Compression(message)),
        },
        Err(message) => Err(EncodeError::Compression(message)),
    }
}

/// Puts the gzip framing on, if one is asked for. What comes back holds the
/// text; without framing it is the text.
pub fn frame(text: Vec<u8>, gzip: bool) -> (r: Result<Vec<u8>, EncodeError>)
    ensures
        match r {
            Ok(bytes) => unframed(bytes@, gzip) == Ok::<Seq<u8>, Failure>(text@),
            Err(e) => gzip && e is Compression,
        },
{
    if gzip {
        let compressed = deflate(text.as_slice());
        checked_stream(text.as_slice(), compressed)
    } else {
        Ok(text)
    }
}

/// Writes a document as bytes: the text, with the gzip framing if one is
/// asked for. Without framing this succeeds whenever the serializer does;
/// with it, the compressor may fail.
pub fn encode(doc: &Json, gzip: bool) -> (r: Result<Vec<u8>, EncodeError>)
    ensures
        match r {
            Ok(bytes) => encoded_text(doc@) is Ok && unframed(bytes@, gzip) == encoded_text(doc@),
            Err(e) => encoded_text(doc@) == Err::<Seq<u8>, Failure>(e@) || (gzip && encoded_text(
                doc@,
            ) is Ok && e is Compression),
        },
{
    match encode_text(doc) {
        Ok(text) => frame(text, gzip),
        Err(e) => Err(e),
    }
}

} // verus!
