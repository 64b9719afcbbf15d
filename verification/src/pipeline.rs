//! The whole trim, from the bytes of a save file to the bytes of the
//! trimmed one.

use vstd::prelude::*;
use crate::bridge::inflated;
use crate::codec::decode_text;
use crate::codec::decoded_text;
use crate::codec::encode_text;
use crate::codec::encoded_text;
use crate::codec::frame;
use crate::codec::unframe;
use crate::codec::unframed;
use crate::error::Failure;
use crate::error::TrimError;
use crate::literals::free_of_quoted_placeholders;
use crate::naming::is_gzip_name;
use crate::naming::names_gzip;
use crate::naming::output_name;
use crate::naming::trimmed_name;
use crate::trim::clipped;
use crate::trim::trim;
use crate::trim::trim_outcome;
use crate::trim::trimmed;
use crate::trim::Policy;

verus! {

/// A trimmed save: its bytes, and the number of entries that were removed.
#[derive(Debug, PartialEq)]
pub struct Trimmed {
    pub output: Vec<u8>,
    pub count: usize,
}

/// The trim of a text: the text of the trimmed document and the number of
/// entries removed, or the first failure on the way: of the parser, of the
/// trim (nothing removed counts as one), of the serializer.
pub open spec fn trimmed_text(text: Seq<u8>, policy: Policy) -> Result<(Seq<u8>, nat), Failure> {
    match decoded_text(text) {
        Ok(doc) => match trim_outcome(doc, policy) {
            Ok(count) => match encoded_text(trimmed(doc)) {
                Ok(out) => Ok((out, count)),
                Err(failure) => Err(failure),
            },
            Err(failure) => Err(failure),
        },
        Err(failure) => Err(failure),
    }
}

/// The trim of a save file's bytes, as text: the framing is taken off, if
/// there is one, and the text is trimmed.
pub open spec fn trimmed_content(bytes: Seq<u8>, gzip: bool, policy: Policy) -> Result<
    (Seq<u8>, nat),
    Failure,
> {
    match unframed(bytes, gzip) {
        Ok(text) => trimmed_text(text, policy),
        Err(failure) => Err(failure),
    }
}

/// An executable trim says what `outcome` says: the same error, or the same
/// text with the same count, as far as `usize` holds it.
pub open spec fn delivers(r: Result<Trimmed, TrimError>, outcome: Result<(Seq<u8>, nat), Failure>)
    -> bool {
    match r {
        Ok(done) => outcome is Ok && done.output@ == outcome->Ok_0.0 && done.count == clipped(
            outcome->Ok_0.1,
        ),
        Err(e) => outcome == Err::<(Seq<u8>, nat), Failure>(e@),
    }
}

/// Trims a text: reads it as a document, empties the queues, and writes the
/// document as text again. No placeholder is left in the text as a string.
pub fn trim_text(text: &[u8], policy: Policy) -> (r: Result<Trimmed, TrimError>)
    ensures
        delivers(r, trimmed_text(text@, policy)),
        r is Ok ==> free_of_quoted_placeholders(r->Ok_0.output@),
{
    let mut doc = match decode_text(text) {
        Ok(doc) => doc,
        Err(e) => {
            return Err(TrimError::from_decode(e));
        },
    };
    let count: usize = match trim(&mut doc, policy) {
        Ok(count) => count,
        Err(e) => {
            return Err(e);
        },
    };
    match encode_text(&doc) {
        Ok(output) => Ok(Trimmed { output, count }),
        Err(e) => Err(TrimError::from_encode(e)),
    }
}

/// Trims the bytes of a save file and returns the trimmed text, without
/// framing whatever the input had.
pub fn trim_content(bytes: &[u8], gzip: bool, policy: Policy) -> (r: Result<Trimmed, TrimError>)
    ensures
        delivers(r, trimmed_content(bytes@, gzip, policy)),
        r is Ok ==> free_of_quoted_placeholders(r->Ok_0.output@),
{
    match unframe(bytes, gzip) {
        Ok(text) => trim_text(text.as_slice(), policy),
        Err(e) => Err(TrimError::from_decode(e)),
    }
}

/// `done` is a trim of `bytes`: the trim succeeds, the output holds the
/// trimmed text inside the framing that the input had, and the count is that
/// of the trim, as far as `usize` holds it.
pub open spec fn is_trim_of(done: Trimmed, bytes: Seq<u8>, gzip: bool, policy: Policy) -> bool {
    let content = trimmed_content(bytes, gzip, policy);
    &&& content is Ok
    &&& unframed(done.output@, gzip) == Ok::<Seq<u8>, Failure>(content->Ok_0.0)
    &&& done.count == clipped(content->Ok_0.1)
}

/// Trims the bytes of a save file and returns the bytes of the trimmed one,
/// framed as the input was. A failure is that of the trim; with framing the
/// compressor may fail where the trim did not.
pub fn trim_bytes(bytes: &[u8], gzip: bool, policy: Policy) -> (r: Result<Trimmed, TrimError>)
    ensures
        match r {
            Ok(done) => is_trim_of(done, bytes@, gzip, policy),
            Err(e) => trimmed_content(bytes@, gzip, policy) == Err::<(Seq<u8>, nat), Failure>(e@)
                || (gzip && trimmed_content(bytes@, gzip, policy) is Ok && e is Compression),
        },
{
    let done = match trim_content(bytes, gzip, policy) {
        Ok(done) => done,
        Err(e) => {
            return Err(e);
        },
    };
    let count: usize = done.count;
    match frame(done.output, gzip) {
        Ok(output) => Ok(Trimmed { output, count }),
        Err(e) => Err(TrimError::from_encode(e)),
    }
}

/// A trimmed save file: the name to write it under, beside the file it was
/// made from, its bytes, and the number of entries that were removed.
#[derive(Debug, PartialEq)]
pub struct TrimmedFile {
    pub name: String,
    pub bytes: Vec<u8>,
    pub count: usize,
}

/// Trims a save file, given by its name and its bytes. The name says
/// whether the bytes are a gzip stream, and gives the trimmed file its name;
/// the output is framed as the input was. Reading the file and writing the
/// output, to a file that must not exist yet, are left to the caller.
pub fn trim_file(name: &str, bytes: &[u8], policy: Policy) -> (r: Result<TrimmedFile, TrimError>)
    ensures
        match r {
            Ok(file) => {
                &&& file.name@ == trimmed_name(name@)
                &&& is_trim_of(
                    (Trimmed { output: file.bytes, count: file.count }),
                    bytes@,
                    names_gzip(name@),
                    policy,
                )
            },
            Err(e) => {
                let content = trimmed_content(bytes@, names_gzip(name@), policy);
                content == Err::<(Seq<u8>, nat), Failure>(e@) || (names_gzip(name@) && content is Ok
                    && e is Compression)
            },
        },
{
    let gzip = is_gzip_name(name);
    match trim_bytes(bytes, gzip, policy) {
        Ok(done) => Ok(
            TrimmedFile { name: output_name(name), bytes: done.output, count: done.count },
        ),
        Err(e) => Err(e),
    }
}

/// Framing is transparent: a gzip stream and the text it holds are trimmed
/// to the same text, with the same count, or fail alike.
pub proof fn lemma_gzip_transparent(stream: Seq<u8>, text: Seq<u8>, policy: Policy)
    requires
        inflated(stream) == Ok::<Seq<u8>, Seq<char>>(text),
    ensures
        trimmed_content(stream, true, policy) == trimmed_content(text, false, policy),
{
}

/// A trim of a gzip stream and a trim of the text that the stream holds give
/// the same text, the first inside its framing, and the same count.
pub proof fn lemma_same_output_inside_framing(
    stream: Seq<u8>,
    text: Seq<u8>,
    policy: Policy,
    of_stream: Trimmed,
    of_text: Trimmed,
)
    requires
        inflated(stream) == Ok::<Seq<u8>, Seq<char>>(text),
        is_trim_of(of_stream, stream, true, policy),
        is_trim_of(of_text, text, false, policy),
    ensures
        inflated(of_stream.output@) == Ok::<Seq<u8>, Seq<char>>(of_text.output@),
        of_stream.count == of_text.count,
{
}

} // verus!
