//! Replacing every occurrence of a byte pattern in a text, from left to right.

use vstd::prelude::*;

verus! {

/// `pattern` stands in `text` at position `at`.
pub open spec fn occurs_at(text: Seq<u8>, pattern: Seq<u8>, at: int) -> bool {
    &&& 0 <= at
    &&& at + pattern.len() <= text.len()
    &&& text.subrange(at, at + pattern.len()) == pattern
}

/// `pattern` stands nowhere in `text`.
pub open spec fn free_of(text: Seq<u8>, pattern: Seq<u8>) -> bool {
    forall|at: int| !occurs_at(text, pattern, at)
}

/// `text` with each occurrence of `pattern` replaced by `with`. The text is
/// read from the left; after an occurrence, reading goes on behind it, so
/// occurrences that overlap an earlier one are not seen, nor is anything
/// looked for in what was put in. For an empty pattern the text stays as it
/// is.
pub open spec fn replace_all(text: Seq<u8>, pattern: Seq<u8>, with: Seq<u8>) -> Seq<u8>
    decreases text.len(),
{
    if pattern.len() == 0 || text.len() < pattern.len() {
        text
    } else if occurs_at(text, pattern, 0) {
        with + replace_all(text.skip(pattern.len() as int), pattern, with)
    } else {
        seq![text[0]] + replace_all(text.skip(1), pattern, with)
    }
}

/// An occurrence in a tail of a text is an occurrence in the text.
pub proof fn lemma_occurs_in_tail(text: Seq<u8>, pattern: Seq<u8>, from: int, at: int)
    requires
        0 <= from <= text.len(),
        occurs_at(text.skip(from), pattern, at),
    ensures
        occurs_at(text, pattern, from + at),
{
    assert(text.subrange(from + at, from + at + pattern.len()) =~= text.skip(from).subrange(
        at,
        at + pattern.len(),
    ));
}

/// A tail of a text that is free of a pattern is free of it.
pub proof fn lemma_tail_free(text: Seq<u8>, pattern: Seq<u8>, from: int)
    requires
        0 <= from <= text.len(),
        free_of(text, pattern),
    ensures
        free_of(text.skip(from), pattern),
{
    assert forall|at: int| !occurs_at(text.skip(from), pattern, at) by {
        if occurs_at(text.skip(from), pattern, at) {
            lemma_occurs_in_tail(text, pattern, from, at);
        }
    }
}

/// Replacing changes nothing in a text that is free of the pattern.
pub proof fn lemma_replace_nothing(text: Seq<u8>, pattern: Seq<u8>, with: Seq<u8>)
    requires
        free_of(text, pattern),
    ensures
        replace_all(text, pattern, with) == text,
    decreases text.len(),
{
    if pattern.len() == 0 || text.len() < pattern.len() {
    } else {
        assert(!occurs_at(text, pattern, 0));
        lemma_tail_free(text, pattern, 1);
        lemma_replace_nothing(text.skip(1), pattern, with);
        assert(seq![text[0]] + text.skip(1) =~= text);
    }
}

/// As long as the result of a replacement does not show the first byte of
/// what is put in, it is a copy of the text: its first `k` bytes are those of
/// the text, and the rest is the result for the rest of the text.
pub proof fn lemma_copied_prefix(text: Seq<u8>, pattern: Seq<u8>, with: Seq<u8>, k: int)
    requires
        pattern.len() > 0,
        with.len() > 0,
        0 <= k <= replace_all(text, pattern, with).len(),
        forall|j: int| 0 <= j < k ==> replace_all(text, pattern, with)[j] != with[0],
    ensures
        k <= text.len(),
        replace_all(text, pattern, with) == text.subrange(0, k) + replace_all(
            text.skip(k),
            pattern,
            with,
        ),
    decreases k,
{
    let out = replace_all(text, pattern, with);
    if k == 0 {
        assert(text.skip(0) =~= text);
        assert(text.subrange(0, 0) + out =~= out);
    } else if text.len() < pattern.len() {
        assert(out == text);
        assert(replace_all(text.skip(k), pattern, with) == text.skip(k));
        assert(text.subrange(0, k) + text.skip(k) =~= text);
    } else {
        if occurs_at(text, pattern, 0) {
            assert(out[0] == with[0]);
        }
        let tail = text.skip(1);
        let tail_out = replace_all(tail, pattern, with);
        assert(out == seq![text[0]] + tail_out);
        assert forall|j: int| 0 <= j < k - 1 implies tail_out[j] != with[0] by {
            assert(out[j + 1] == tail_out[j]);
        }
        lemma_copied_prefix(tail, pattern, with, k - 1);
        assert(tail.skip(k - 1) =~= text.skip(k));
        assert(seq![text[0]] + tail.subrange(0, k - 1) =~= text.subrange(0, k));
        assert(out =~= text.subrange(0, k) + replace_all(text.skip(k), pattern, with));
    }
}

/// Where the pattern and what is put in begin with the same byte, the result
/// of a replacement begins as the text does.
pub proof fn lemma_same_head(text: Seq<u8>, pattern: Seq<u8>, with: Seq<u8>)
    requires
        pattern.len() > 0,
        with.len() > 0,
        pattern[0] == with[0],
    ensures
        text.len() == 0 <==> replace_all(text, pattern, with).len() == 0,
        text.len() > 0 ==> replace_all(text, pattern, with)[0] == text[0],
{
    if text.len() >= pattern.len() && occurs_at(text, pattern, 0) {
        assert(text.subrange(0, pattern.len() as int)[0] == pattern[0]);
    }
}

/// Laid over `ground` at position `at`, `word` differs from it in some byte
/// that lies within `ground`.
pub open spec fn clashes(ground: Seq<u8>, word: Seq<u8>, at: int) -> bool {
    exists|j: int| 0 <= j < word.len() && at + j < ground.len() && ground[at + j] != word[j]
}

/// Where a text does not begin with the pattern, replacing copies its first
/// byte and goes on behind it.
pub proof fn lemma_replace_step(text: Seq<u8>, pattern: Seq<u8>, with: Seq<u8>)
    requires
        text.len() > 0,
        !occurs_at(text, pattern, 0),
    ensures
        replace_all(text, pattern, with) == seq![text[0]] + replace_all(
            text.skip(1),
            pattern,
            with,
        ),
{
    if pattern.len() == 0 || text.len() < pattern.len() {
        assert(seq![text[0]] + text.skip(1) =~= text);
    }
}

/// A replacement brings no occurrence of `word` into a text, if `word` does
/// not hold the first byte of what is put in and cannot lie over any part of
/// it. If `word` is the pattern itself, the result is free of it; if the text
/// was free of `word`, the result is.
pub proof fn lemma_replace_keeps_free(
    text: Seq<u8>,
    pattern: Seq<u8>,
    with: Seq<u8>,
    word: Seq<u8>,
)
    requires
        pattern.len() > 0,
        with.len() > 0,
        word.len() > 0,
        forall|j: int| 0 <= j < word.len() ==> word[j] != with[0],
        forall|i: int| 0 <= i < with.len() ==> clashes(with, word, i),
        word == pattern || free_of(text, word),
    ensures
        free_of(replace_all(text, pattern, with), word),
    decreases text.len(),
{
    let out = replace_all(text, pattern, with);
    if text.len() < pattern.len() {
    } else if occurs_at(text, pattern, 0) {
        let tail = text.skip(pattern.len() as int);
        let tail_out = replace_all(tail, pattern, with);
        if word != pattern {
            lemma_tail_free(text, word, pattern.len() as int);
        }
        lemma_replace_keeps_free(tail, pattern, with, word);
        assert forall|at: int| !occurs_at(out, word, at) by {
            if occurs_at(out, word, at) {
                if at >= with.len() {
                    assert(tail_out.subrange(at - with.len(), at - with.len() + word.len())
                        =~= out.subrange(at, at + word.len()));
                    assert(occurs_at(tail_out, word, at - with.len()));
                } else {
                    assert(clashes(with, word, at));
                    let j = choose|j: int|
                        0 <= j < word.len() && at + j < with.len() && with[at + j] != word[j];
                    assert(out.subrange(at, at + word.len())[j] == out[at + j]);
                }
            }
        }
    } else {
        let tail = text.skip(1);
        let tail_out = replace_all(tail, pattern, with);
        if word != pattern {
            lemma_tail_free(text, word, 1);
        }
        lemma_replace_keeps_free(tail, pattern, with, word);
        assert forall|at: int| !occurs_at(out, word, at) by {
            if occurs_at(out, word, at) {
                if at >= 1 {
                    assert(tail_out.subrange(at - 1, at - 1 + word.len()) =~= out.subrange(
                        at,
                        at + word.len(),
                    ));
                    assert(occurs_at(tail_out, word, at - 1));
                } else {
                    let k = word.len() - 1;
                    assert forall|j: int| 0 <= j < k implies tail_out[j] != with[0] by {
                        assert(out.subrange(0, word.len() as int)[j + 1] == word[j + 1]);
                    }
                    lemma_copied_prefix(tail, pattern, with, k);
                    assert(text.subrange(0, word.len() as int) =~= out.subrange(
                        0,
                        word.len() as int,
                    ));
                    assert(occurs_at(text, word, 0));
                }
            }
        }
    }
}

/// Replacing `quoted` by `token` reads through a lead on which `quoted`
/// cannot lie, replaces the `quoted` that follows it, and goes on behind.
pub proof fn lemma_replace_behind_lead(
    lead: Seq<u8>,
    quoted: Seq<u8>,
    token: Seq<u8>,
    rest: Seq<u8>,
    from: int,
)
    requires
        quoted.len() > 0,
        0 <= from <= lead.len(),
        forall|i: int| from <= i < lead.len() ==> clashes(lead + quoted, quoted, i),
    ensures
        replace_all((lead + quoted + rest).skip(from), quoted, token) == lead.skip(from) + token
            + replace_all(rest, quoted, token),
    decreases lead.len() - from,
{
    let whole = lead + quoted + rest;
    let here = whole.skip(from);
    if from == lead.len() {
        assert(here =~= quoted + rest);
        assert(here.subrange(0, quoted.len() as int) =~= quoted);
        assert(here.skip(quoted.len() as int) =~= rest);
        assert(lead.skip(from) + token + replace_all(rest, quoted, token) =~= token
            + replace_all(rest, quoted, token));
    } else {
        assert(clashes(lead + quoted, quoted, from));
        let j = choose|j: int|
            0 <= j < quoted.len() && from + j < (lead + quoted).len() && (lead + quoted)[from + j]
                != quoted[j];
        if occurs_at(here, quoted, 0) {
            assert(here.subrange(0, quoted.len() as int)[j] == whole[from + j]);
            assert(whole[from + j] == (lead + quoted)[from + j]);
        }
        lemma_replace_step(here, quoted, token);
        assert(here.skip(1) =~= whole.skip(from + 1));
        lemma_replace_behind_lead(lead, quoted, token, rest, from + 1);
        assert(seq![here[0]] + lead.skip(from + 1) =~= lead.skip(from));
        assert(seq![here[0]] + (lead.skip(from + 1) + token + replace_all(rest, quoted, token))
            =~= lead.skip(from) + token + replace_all(rest, quoted, token));
    }
}

/// Putting `quoted` for `token` behind each `lead`, and then `token` for each
/// `quoted`, gives the text back, if the text was free of `quoted`. Asked of
/// `quoted`: it begins and ends with the byte that `lead` begins with, holds
/// that byte nowhere else, and cannot lie over `lead`.
pub proof fn lemma_replace_undone(text: Seq<u8>, lead: Seq<u8>, token: Seq<u8>, quoted: Seq<u8>)
    requires
        lead.len() > 0,
        quoted.len() >= 2,
        quoted[0] == lead[0],
        quoted.last() == lead[0],
        forall|j: int| 0 < j < quoted.len() - 1 ==> quoted[j] != lead[0],
        forall|i: int| 0 <= i < lead.len() ==> clashes(lead + quoted, quoted, i),
        free_of(text, quoted),
    ensures
        replace_all(replace_all(text, lead + token, lead + quoted), quoted, token) == text,
    decreases text.len(),
{
    let bare = lead + token;
    let masked = lead + quoted;
    let out = replace_all(text, bare, masked);
    if text.len() < bare.len() {
        lemma_replace_nothing(text, quoted, token);
    } else if occurs_at(text, bare, 0) {
        let tail = text.skip(bare.len() as int);
        let tail_out = replace_all(tail, bare, masked);
        lemma_tail_free(text, quoted, bare.len() as int);
        lemma_replace_undone(tail, lead, token, quoted);
        lemma_replace_behind_lead(lead, quoted, token, tail_out, 0);
        assert((lead + quoted + tail_out).skip(0) =~= out);
        assert(lead.skip(0) =~= lead);
        assert(text.subrange(0, bare.len() as int) + tail =~= text);
        assert(lead + token + tail =~= text);
    } else {
        let tail = text.skip(1);
        let tail_out = replace_all(tail, bare, masked);
        lemma_tail_free(text, quoted, 1);
        lemma_replace_undone(tail, lead, token, quoted);
        assert(out == seq![text[0]] + tail_out);
        if occurs_at(out, quoted, 0) {
            let inner = quoted.len() - 2;
            let window = out.subrange(0, quoted.len() as int);
            assert(window[0] == out[0]);
            assert forall|j: int| 0 <= j < inner implies tail_out[j] != masked[0] by {
                assert(window[j + 1] == out[j + 1]);
            }
            lemma_copied_prefix(tail, bare, masked, inner);
            let behind = tail.skip(inner);
            let behind_out = replace_all(behind, bare, masked);
            assert(window[inner + 1] == out[inner + 1]);
            assert(behind_out[0] == tail_out[inner]);
            lemma_same_head(behind, bare, masked);
            assert forall|j: int| 0 <= j < quoted.len() implies text[j] == quoted[j] by {
                assert(window[j] == out[j]);
                if j == 0 {
                } else if j <= inner {
                    assert(tail_out[j - 1] == tail.subrange(0, inner)[j - 1]);
                } else {
                    assert(behind[0] == text[j]);
                }
            }
            assert(text.subrange(0, quoted.len() as int) =~= quoted);
            assert(occurs_at(text, quoted, 0));
        }
        lemma_replace_step(out, quoted, token);
        assert(out.skip(1) =~= tail_out);
        assert(seq![text[0]] + tail =~= text);
    }
}

/// Whether `pattern` stands in `text` at position `at`.
pub fn stands_at(text: &[u8], pattern: &[u8], at: usize) -> (r: bool)
    ensures
        r == occurs_at(text@, pattern@, at as int),
{
    if at > text.len() || pattern.len() > text.len() - at {
        return false;
    }
    let mut k: usize = 0;
    while k < pattern.len()
        invariant
            k <= pattern.len(),
            at + pattern.len() <= text.len(),
            text@.subrange(at as int, at + k) == pattern@.subrange(0, k as int),
        decreases pattern.len() - k,
    {
        if text[at + k] != pattern[k] {
            assert(text@.subrange(at as int, at + pattern.len())[k as int] != pattern@[k as int]);
            return false;
        }
        assert(text@.subrange(at as int, at + k + 1) =~= text@.subrange(at as int, at + k).push(
            text@[at + k],
        ));
        assert(pattern@.subrange(0, k + 1) =~= pattern@.subrange(0, k as int).push(
            pattern@[k as int],
        ));
        k += 1;
    }
    assert(pattern@.subrange(0, k as int) =~= pattern@);
    true
}

/// `text` with each occurrence of `pattern` replaced by `with`.
pub fn replace(text: &[u8], pattern: &[u8], with: &[u8]) -> (out: Vec<u8>)
    ensures
        out@ == replace_all(text@, pattern@, with@),
{
    let mut out: Vec<u8> = Vec::new();
    let mut at: usize = 0;
    assert(text@.skip(0) =~= text@);
    while at < text.len()
        invariant
            at <= text.len(),
            out@ + replace_all(text@.skip(at as int), pattern@, with@) =~= replace_all(
                text@,
                pattern@,
                with@,
            ),
        decreases text.len() - at,
    {
        let ghost rest = text@.skip(at as int);
        let ghost done = out@;
        proof {
            if rest.len() >= pattern.len() {
                assert(rest.subrange(0, pattern@.len() as int) =~= text@.subrange(
                    at as int,
                    at + pattern@.len(),
                ));
            }
        }
        if pattern.len() > 0 && stands_at(text, pattern, at) {
            assert(rest.skip(pattern@.len() as int) =~= text@.skip(at + pattern@.len()));
            out.extend_from_slice(with);
            at += pattern.len();
        } else {
            assert(rest.skip(1) =~= text@.skip(at + 1));
            assert(replace_all(rest, pattern@, with@) =~= seq![rest[0]] + replace_all(
                rest.skip(1),
                pattern@,
                with@,
            ));
            out.push(text[at]);
            at += 1;
        }
        assert(out@ + replace_all(text@.skip(at as int), pattern@, with@) =~= done + replace_all(
            rest,
            pattern@,
            with@,
        ));
    }
    assert(text@.skip(at as int) =~= Seq::<u8>::empty());
    out
}

} // verus!
