//! The three number literals that the strict grammar refuses, and the
//! placeholder strings that stand for them while a document is parsed.

use vstd::prelude::*;
use vstd::string::StrSliceExecFns;
use vstd::string::StringSliceAdditionalSpecFns;
use vstd::utf8::is_ascii_chars;
use vstd::utf8::is_ascii_chars_encode_utf8;
use crate::replace::clashes;
use crate::replace::free_of;
use crate::replace::lemma_replace_keeps_free;
use crate::replace::lemma_replace_undone;
use crate::replace::occurs_at;
use crate::replace::replace;
use crate::replace::replace_all;

verus! {

/// A number literal that the game writes and the strict grammar refuses.
#[derive(Debug, Clone, Copy, PartialEq, Eq, Structural)]
pub enum Literal {
    NegInfinity,
    Infinity,
    NaN,
}

/// The byte `"`.
pub const QUOTE: u8 = 0x22;

/// A lower-case hexadecimal digit.
pub open spec fn is_hex(b: u8) -> bool {
    0x30 <= b <= 0x39 || 0x61 <= b <= 0x66
}

impl Literal {
    /// The literal as the game writes it.
    pub open spec fn token(self) -> Seq<u8> {
        match self {
            Literal::NegInfinity => "-Infinity".spec_bytes(),
            Literal::Infinity => "Infinity".spec_bytes(),
            Literal::NaN => "NaN".spec_bytes(),
        }
    }

    /// The string that stands for the literal in a parsed document.
    pub open spec fn placeholder(self) -> Seq<u8> {
        match self {
            Literal::NegInfinity => "0a3ff2db148fc58333d206b7ff3b3a80d4c0bcb2072d8ce45a397411"
                .spec_bytes(),
            Literal::Infinity => "0852cefd0e445e0228605787a763fe79d75bb4ad92c32a78d43b8aed"
                .spec_bytes(),
            Literal::NaN => "9207845e5abaca58cc1ed24084c9fa7c3640b2dc45f96ee680a72938"
                .spec_bytes(),
        }
    }
}

impl Literal {
    /// The literal as the game writes it.
    pub fn token_text(self) -> (text: &'static str)
        ensures
            text.spec_bytes() == self.token(),
    {
        match self {
            Literal::NegInfinity => "-Infinity",
            Literal::Infinity => "Infinity",
            Literal::NaN => "NaN",
        }
    }

    /// The string that stands for the literal in a parsed document.
    pub fn placeholder_text(self) -> (text: &'static str)
        ensures
            text.spec_bytes() == self.placeholder(),
    {
        match self {
            Literal::NegInfinity => "0a3ff2db148fc58333d206b7ff3b3a80d4c0bcb2072d8ce45a397411",
            Literal::Infinity => "0852cefd0e445e0228605787a763fe79d75bb4ad92c32a78d43b8aed",
            Literal::NaN => "9207845e5abaca58cc1ed24084c9fa7c3640b2dc45f96ee680a72938",
        }
    }
}

/// What the placeholders look like: 56 hexadecimal digits each, and no two
/// of them begin with the same two digits.
pub proof fn lemma_placeholder_shape(literal: Literal)
    ensures
        literal.placeholder().len() == 56,
        forall|k: int| 0 <= k < 56 ==> is_hex(#[trigger] literal.placeholder()[k]),
        literal.placeholder()[0] == match literal {
            Literal::NegInfinity => 0x30u8,
            Literal::Infinity => 0x30u8,
            Literal::NaN => 0x39u8,
        },
        literal.placeholder()[1] == match literal {
            Literal::NegInfinity => 0x61u8,
            Literal::Infinity => 0x38u8,
            Literal::NaN => 0x32u8,
        },
{
    reveal_strlit("0a3ff2db148fc58333d206b7ff3b3a80d4c0bcb2072d8ce45a397411");
    reveal_strlit("0852cefd0e445e0228605787a763fe79d75bb4ad92c32a78d43b8aed");
    reveal_strlit("9207845e5abaca58cc1ed24084c9fa7c3640b2dc45f96ee680a72938");
    let chars = match literal {
        Literal::NegInfinity => "0a3ff2db148fc58333d206b7ff3b3a80d4c0bcb2072d8ce45a397411"@,
        Literal::Infinity => "0852cefd0e445e0228605787a763fe79d75bb4ad92c32a78d43b8aed"@,
        Literal::NaN => "9207845e5abaca58cc1ed24084c9fa7c3640b2dc45f96ee680a72938"@,
    };
    assert(chars.len() == 56);
    assert(is_ascii_chars(chars));
    is_ascii_chars_encode_utf8(chars);
}

/// What the tokens look like: short, and beginning and ending with a byte
/// that is neither a quote nor a hexadecimal digit.
pub proof fn lemma_token_shape(literal: Literal)
    ensures
        0 < literal.token().len() <= 9,
        literal.token()[0] != QUOTE,
        !is_hex(literal.token()[0]),
        literal.token().last() != QUOTE,
        !is_hex(literal.token().last()),
{
    reveal_strlit("-Infinity");
    reveal_strlit("Infinity");
    reveal_strlit("NaN");
    let chars = match literal {
        Literal::NegInfinity => "-Infinity"@,
        Literal::Infinity => "Infinity"@,
        Literal::NaN => "NaN"@,
    };
    assert(is_ascii_chars(chars));
    is_ascii_chars_encode_utf8(chars);
}

/// What comes before a value in a pretty-printed mapping: the quote that
/// ends the key, a colon and a space.
pub open spec fn lead() -> Seq<u8> {
    "\": ".spec_bytes()
}

/// The lead is a quote, a colon and a space.
pub proof fn lemma_lead_shape()
    ensures
        lead() == seq![QUOTE, 0x3au8, 0x20u8],
{
    reveal_strlit("\": ");
    assert(is_ascii_chars("\": "@));
    is_ascii_chars_encode_utf8("\": "@);
    assert(lead() =~= seq![QUOTE, 0x3au8, 0x20u8]);
}

/// The placeholder of `literal` as a string value: between quotes.
pub open spec fn quoted(literal: Literal) -> Seq<u8> {
    seq![QUOTE] + literal.placeholder() + seq![QUOTE]
}

/// The literal as it stands in a document: behind the lead.
pub open spec fn bare(literal: Literal) -> Seq<u8> {
    lead() + literal.token()
}

/// The placeholder as it stands in a document: as a string behind the lead.
pub open spec fn masked(literal: Literal) -> Seq<u8> {
    lead() + quoted(literal)
}

/// `text` with each `literal` that follows a lead replaced by its placeholder
/// as a string.
pub open spec fn substituted_one(text: Seq<u8>, literal: Literal) -> Seq<u8> {
    replace_all(text, bare(literal), masked(literal))
}

/// `text` with each placeholder of `literal` that stands as a string replaced
/// by the literal.
pub open spec fn restored_one(text: Seq<u8>, literal: Literal) -> Seq<u8> {
    replace_all(text, quoted(literal), literal.token())
}

/// `text` with the three literals replaced by their placeholders, one after
/// the other: `-Infinity`, `Infinity`, `NaN`.
pub open spec fn substituted(text: Seq<u8>) -> Seq<u8> {
    substituted_one(
        substituted_one(substituted_one(text, Literal::NegInfinity), Literal::Infinity),
        Literal::NaN,
    )
}

/// `text` with the three placeholders replaced by their literals, the last
/// substitution undone first: `NaN`, `Infinity`, `-Infinity`.
pub open spec fn restored(text: Seq<u8>) -> Seq<u8> {
    restored_one(
        restored_one(restored_one(text, Literal::NaN), Literal::Infinity),
        Literal::NegInfinity,
    )
}

/// The bytes of `quoted(literal)`.
fn quoted_bytes(literal: Literal) -> (out: Vec<u8>)
    ensures
        out@ == quoted(literal),
{
    let mut out: Vec<u8> = Vec::new();
    out.push(QUOTE);
    out.extend_from_slice(literal.placeholder_text().as_bytes());
    out.push(QUOTE);
    assert(out@ =~= quoted(literal));
    out
}

/// The bytes of `bare(literal)`.
fn bare_bytes(literal: Literal) -> (out: Vec<u8>)
    ensures
        out@ == bare(literal),
{
    let mut out = "\": ".as_bytes_vec();
    out.extend_from_slice(literal.token_text().as_bytes());
    assert(out@ =~= bare(literal));
    out
}

/// The bytes of `masked(literal)`.
fn masked_bytes(literal: Literal) -> (out: Vec<u8>)
    ensures
        out@ == masked(literal),
{
    let mut out = "\": ".as_bytes_vec();
    let word = quoted_bytes(literal);
    out.extend_from_slice(word.as_slice());
    assert(out@ =~= masked(literal));
    out
}

/// Replaces each `literal` that follows a lead by its placeholder as a string.
pub fn substitute_one(text: &[u8], literal: Literal) -> (out: Vec<u8>)
    ensures
        out@ == substituted_one(text@, literal),
{
    let pattern = bare_bytes(literal);
    let with = masked_bytes(literal);
    replace(text, pattern.as_slice(), with.as_slice())
}

/// Replaces each placeholder of `literal` that stands as a string by the
/// literal.
pub fn restore_one(text: &[u8], literal: Literal) -> (out: Vec<u8>)
    ensures
        out@ == restored_one(text@, literal),
{
    let pattern = quoted_bytes(literal);
    replace(text, pattern.as_slice(), literal.token_text().as_bytes())
}

/// Makes a text that holds the three literals fit for the strict grammar:
/// each literal that follows a lead becomes its placeholder as a string.
pub fn substitute(text: &[u8]) -> (out: Vec<u8>)
    ensures
        out@ == substituted(text@),
{
    let first = substitute_one(text, Literal::NegInfinity);
    let second = substitute_one(first.as_slice(), Literal::Infinity);
    substitute_one(second.as_slice(), Literal::NaN)
}

/// Puts the literals back: each placeholder that stands as a string becomes
/// its literal. None of them is left in the result.
pub fn restore(text: &[u8]) -> (out: Vec<u8>)
    ensures
        out@ == restored(text@),
        free_of_quoted_placeholders(out@),
{
    let first = restore_one(text, Literal::NaN);
    let second = restore_one(first.as_slice(), Literal::Infinity);
    let out = restore_one(second.as_slice(), Literal::NegInfinity);
    proof {
        lemma_restored_free(text@);
    }
    out
}

/// `text` holds none of the three placeholders, quoted or not.
pub open spec fn free_of_placeholders(text: Seq<u8>) -> bool {
    forall|literal: Literal| free_of(text, #[trigger] literal.placeholder())
}

/// `text` holds none of the three placeholders as a string.
pub open spec fn free_of_quoted_placeholders(text: Seq<u8>) -> bool {
    forall|literal: Literal| free_of(text, #[trigger] quoted(literal))
}

/// No two literals share a placeholder.
pub proof fn lemma_placeholders_distinct(a: Literal, b: Literal)
    requires
        a != b,
    ensures
        a.placeholder() != b.placeholder(),
        quoted(a) != quoted(b),
{
    lemma_placeholder_shape(a);
    lemma_placeholder_shape(b);
    assert(quoted(a)[1] == a.placeholder()[0]);
    assert(quoted(a)[2] == a.placeholder()[1]);
    assert(quoted(b)[1] == b.placeholder()[0]);
    assert(quoted(b)[2] == b.placeholder()[1]);
}

/// A text that is free of a placeholder is free of it as a string.
pub proof fn lemma_free_of_quoted(text: Seq<u8>, literal: Literal)
    requires
        free_of(text, literal.placeholder()),
    ensures
        free_of(text, quoted(literal)),
{
    let word = literal.placeholder();
    assert forall|at: int| !occurs_at(text, quoted(literal), at) by {
        if occurs_at(text, quoted(literal), at) {
            assert(text.subrange(at + 1, at + 1 + word.len()) =~= quoted(literal).subrange(
                1,
                word.len() as int + 1,
            ));
            assert(quoted(literal).subrange(1, word.len() as int + 1) =~= word);
            assert(occurs_at(text, word, at + 1));
        }
    }
}

/// Substituting one literal brings the placeholder of no other into a text.
pub proof fn lemma_substituted_one_free(text: Seq<u8>, literal: Literal, other: Literal)
    requires
        literal != other,
        free_of(text, other.placeholder()),
    ensures
        free_of(substituted_one(text, literal), other.placeholder()),
{
    let with = masked(literal);
    let word = other.placeholder();
    lemma_lead_shape();
    lemma_token_shape(literal);
    lemma_placeholder_shape(literal);
    lemma_placeholder_shape(other);
    assert(with.len() == 61);
    assert(with[0] == QUOTE && with[1] == 0x3au8 && with[2] == 0x20u8 && with[3] == QUOTE);
    assert(with[60] == QUOTE);
    assert forall|i: int| 0 <= i < with.len() implies clashes(with, word, i) by {
        if i <= 3 {
            assert(with[i + 0] != word[0]);
        } else if i == 4 {
            assert(with[4] == literal.placeholder()[0]);
            assert(with[5] == literal.placeholder()[1]);
            assert(with[i + 0] != word[0] || with[i + 1] != word[1]);
        } else {
            assert(with[i + (60 - i)] != word[60 - i]);
        }
    }
    lemma_replace_keeps_free(text, bare(literal), with, word);
}

/// Restoring one literal takes its placeholder out of a text as a string,
/// and brings in that of no other.
pub proof fn lemma_restored_one_free(text: Seq<u8>, literal: Literal, other: Literal)
    requires
        literal == other || free_of(text, quoted(other)),
    ensures
        free_of(restored_one(text, literal), quoted(other)),
{
    let with = literal.token();
    let word = quoted(other);
    lemma_token_shape(literal);
    lemma_placeholder_shape(literal);
    lemma_placeholder_shape(other);
    assert forall|j: int| 0 <= j < word.len() implies word[j] == QUOTE || is_hex(word[j]) by {
        if 0 < j < 57 {
            assert(word[j] == other.placeholder()[j - 1]);
        }
    }
    assert forall|i: int| 0 <= i < with.len() implies clashes(with, word, i) by {
        let j = with.len() - 1 - i;
        assert(word[j] == QUOTE || is_hex(word[j]));
        assert(with[i + j] != word[j]);
    }
    if literal == other {
        assert(quoted(literal) == word);
    }
    lemma_replace_keeps_free(text, quoted(literal), with, word);
}

/// Restoring undoes the substitution of one literal in a text that is free
/// of its placeholder.
pub proof fn lemma_restored_one_inverts(text: Seq<u8>, literal: Literal)
    requires
        free_of(text, literal.placeholder()),
    ensures
        restored_one(substituted_one(text, literal), literal) == text,
{
    let word = quoted(literal);
    lemma_lead_shape();
    lemma_placeholder_shape(literal);
    lemma_free_of_quoted(text, literal);
    assert forall|j: int| 0 < j < word.len() - 1 implies word[j] != lead()[0] by {
        assert(word[j] == literal.placeholder()[j - 1]);
    }
    let ground = lead() + word;
    assert(word[1] == literal.placeholder()[0]);
    assert forall|i: int| 0 <= i < lead().len() implies clashes(ground, word, i) by {
        if i == 0 {
            assert(ground[i + 1] != word[1]);
        } else {
            assert(ground[i + 0] != word[0]);
        }
    }
    lemma_replace_undone(text, lead(), literal.token(), word);
}

/// Restoring undoes substituting: a text that holds none of the placeholders
/// comes back byte for byte, its literals as they were.
pub proof fn lemma_restored_inverts_substituted(text: Seq<u8>)
    requires
        free_of_placeholders(text),
    ensures
        restored(substituted(text)) == text,
{
    let first = substituted_one(text, Literal::NegInfinity);
    let second = substituted_one(first, Literal::Infinity);
    assert(free_of(text, Literal::NegInfinity.placeholder()));
    assert(free_of(text, Literal::Infinity.placeholder()));
    assert(free_of(text, Literal::NaN.placeholder()));
    lemma_substituted_one_free(text, Literal::NegInfinity, Literal::Infinity);
    lemma_substituted_one_free(text, Literal::NegInfinity, Literal::NaN);
    lemma_substituted_one_free(first, Literal::Infinity, Literal::NaN);
    lemma_restored_one_inverts(second, Literal::NaN);
    lemma_restored_one_inverts(first, Literal::Infinity);
    lemma_restored_one_inverts(text, Literal::NegInfinity);
}

/// Whatever the text, restoring leaves none of the placeholders in it as a
/// string.
pub proof fn lemma_restored_free(text: Seq<u8>)
    ensures
        free_of_quoted_placeholders(restored(text)),
{
    let first = restored_one(text, Literal::NaN);
    let second = restored_one(first, Literal::Infinity);
    lemma_restored_one_free(text, Literal::NaN, Literal::NaN);
    lemma_restored_one_free(first, Literal::Infinity, Literal::Infinity);
    lemma_restored_one_free(first, Literal::Infinity, Literal::NaN);
    lemma_restored_one_free(second, Literal::NegInfinity, Literal::NegInfinity);
    lemma_restored_one_free(second, Literal::NegInfinity, Literal::Infinity);
    lemma_restored_one_free(second, Literal::NegInfinity, Literal::NaN);
    assert forall|literal: Literal| free_of(restored(text), #[trigger] quoted(literal)) by {
        match literal {
            Literal::NegInfinity => {},
            Literal::Infinity => {},
            Literal::NaN => {},
        }
    }
}

} // verus!
