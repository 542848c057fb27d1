//! Context-word detection around a match.
//!
//! A match whose surrounding window contains one of the recognizer's context words
//! counts as a context hit; the analyzer then uses the pattern's context score.
//! Lemmatization is approximated by lowercase substring matching.
use vstd::prelude::*;
use vstd::string::*;
use vstd::utf8::*;

use crate::types::{char_boundary, slice_between};

verus! {

broadcast use vstd::utf8::group_utf8_lib;

/// Characters of window inspected on each side of a match.
pub const CONTEXT_WINDOW_CHARS: usize = 40;

/// The Unicode lowercase mapping of a string, as `str::to_lowercase` computes it.
pub uninterp spec fn unicode_lowercase(s: Seq<char>) -> Seq<char>;

/// Calls `str::to_lowercase`.
/// Trusted: the result is the Unicode lowercase mapping of the argument, which is
/// only named (`unicode_lowercase`), not stated.
#[verifier::external_body]
fn lowercase(s: &str) -> (r: String)
    ensures
        r@ == unicode_lowercase(s@),
{
    s.to_lowercase()
}

/// The nearest character boundary at or before `i` (the text's end for `i` past it).
pub open spec fn boundary_at_or_before(b: Seq<u8>, i: int) -> int
    decreases i,
{
    if i >= b.len() {
        b.len() as int
    } else if i <= 0 || is_char_boundary(b, i) {
        i
    } else {
        boundary_at_or_before(b, i - 1)
    }
}

/// The nearest character boundary at or after `i` (the text's end for `i` past it).
pub open spec fn boundary_at_or_after(b: Seq<u8>, i: int) -> int
    decreases b.len() - i,
{
    if i >= b.len() {
        b.len() as int
    } else if is_char_boundary(b, i) {
        i
    } else {
        boundary_at_or_after(b, i + 1)
    }
}

proof fn lemma_before_is_boundary(b: Seq<u8>, i: int)
    requires
        valid_utf8(b),
        i >= 0,
    ensures
        0 <= boundary_at_or_before(b, i) <= b.len(),
        boundary_at_or_before(b, i) <= i || i >= b.len(),
        is_char_boundary(b, boundary_at_or_before(b, i)),
    decreases i,
{
    is_char_boundary_start_end_of_seq(b);
    if i < b.len() && i > 0 && !is_char_boundary(b, i) {
        lemma_before_is_boundary(b, i - 1);
    }
}

proof fn lemma_after_is_boundary(b: Seq<u8>, i: int)
    requires
        valid_utf8(b),
        i >= 0,
    ensures
        i <= boundary_at_or_after(b, i) <= b.len() || (i > b.len() && boundary_at_or_after(b, i)
            == b.len()),
        is_char_boundary(b, boundary_at_or_after(b, i)),
    decreases b.len() - i,
{
    is_char_boundary_start_end_of_seq(b);
    if i < b.len() && !is_char_boundary(b, i) {
        lemma_after_is_boundary(b, i + 1);
    }
}

/// The nearest character boundary of `s` at or before `i`.
fn floor_boundary(s: &str, i: usize) -> (r: usize)
    ensures
        r == boundary_at_or_before(s.spec_bytes(), i as int),
{
    let bytes = s.as_bytes();
    if i >= bytes.len() {
        return bytes.len();
    }
    let mut j = i;
    while j > 0 && !s.is_char_boundary(j)
        invariant
            bytes@ == s.spec_bytes(),
            j <= i < bytes@.len(),
            boundary_at_or_before(s.spec_bytes(), i as int) == boundary_at_or_before(
                s.spec_bytes(),
                j as int,
            ),
        decreases j,
    {
        j = j - 1;
    }
    j
}

/// The nearest character boundary of `s` at or after `i`.
fn ceil_boundary(s: &str, i: usize) -> (r: usize)
    ensures
        r == boundary_at_or_after(s.spec_bytes(), i as int),
{
    let bytes = s.as_bytes();
    if i >= bytes.len() {
        return bytes.len();
    }
    let mut j = i;
    while j < bytes.len() && !s.is_char_boundary(j)
        invariant
            bytes@ == s.spec_bytes(),
            i <= j <= bytes@.len(),
            boundary_at_or_after(s.spec_bytes(), i as int) == boundary_at_or_after(
                s.spec_bytes(),
                j as int,
            ),
        decreases bytes@.len() - j,
    {
        j = j + 1;
    }
    j
}

/// The position reached from `i` by stepping back over `n` characters, stopping at
/// the start of the text.
pub open spec fn back_chars(b: Seq<u8>, i: int, n: nat) -> int
    decreases n,
{
    if n == 0 || i <= 0 {
        i
    } else {
        back_chars(b, boundary_at_or_before(b, i - 1), (n - 1) as nat)
    }
}

/// The position reached from `i` by stepping forward over `n` characters, stopping
/// at the end of the text.
pub open spec fn forward_chars(b: Seq<u8>, i: int, n: nat) -> int
    decreases n,
{
    if n == 0 || i >= b.len() {
        i
    } else {
        forward_chars(b, boundary_at_or_after(b, i + 1), (n - 1) as nat)
    }
}

/// Start of the window before a match that starts at `start`: the start of the up
/// to 40 characters that precede it.
pub open spec fn window_start(b: Seq<u8>, start: int) -> int {
    back_chars(b, start, CONTEXT_WINDOW_CHARS as nat)
}

/// End of the window after a match that ends at `end`: the end of the up to 40
/// characters that follow it.
pub open spec fn window_end(b: Seq<u8>, end: int) -> int {
    forward_chars(b, end, CONTEXT_WINDOW_CHARS as nat)
}

/// Stepping back from a character boundary lands on a boundary no later.
proof fn lemma_back_chars(b: Seq<u8>, i: int, n: nat)
    requires
        valid_utf8(b),
        0 <= i <= b.len(),
        is_char_boundary(b, i),
    ensures
        0 <= back_chars(b, i, n) <= i,
        is_char_boundary(b, back_chars(b, i, n)),
    decreases n,
{
    if n > 0 && i > 0 {
        lemma_before_is_boundary(b, i - 1);
        lemma_back_chars(b, boundary_at_or_before(b, i - 1), (n - 1) as nat);
    }
}

/// Stepping forward from a character boundary lands on a boundary no earlier,
/// within the text.
proof fn lemma_forward_chars(b: Seq<u8>, i: int, n: nat)
    requires
        valid_utf8(b),
        0 <= i <= b.len(),
        is_char_boundary(b, i),
    ensures
        i <= forward_chars(b, i, n) <= b.len(),
        is_char_boundary(b, forward_chars(b, i, n)),
    decreases n,
{
    if n > 0 && i < b.len() {
        lemma_after_is_boundary(b, i + 1);
        lemma_forward_chars(b, boundary_at_or_after(b, i + 1), (n - 1) as nat);
    }
}

/// The start of the up to `CONTEXT_WINDOW_CHARS` characters before `start`.
fn window_start_of(text: &str, start: usize) -> (r: usize)
    requires
        char_boundary(text, start as int),
    ensures
        r == window_start(text.spec_bytes(), start as int),
        r <= start,
        char_boundary(text, r as int),
{
    let ghost b = text.spec_bytes();
    let mut j = start;
    let mut k: usize = 0;
    proof {
        lemma_back_chars(b, start as int, CONTEXT_WINDOW_CHARS as nat);
    }
    while k < CONTEXT_WINDOW_CHARS && j > 0
        invariant
            b == text.spec_bytes(),
            k <= CONTEXT_WINDOW_CHARS,
            j <= start,
            j <= b.len(),
            is_char_boundary(b, j as int),
            back_chars(b, start as int, CONTEXT_WINDOW_CHARS as nat) == back_chars(
                b,
                j as int,
                (CONTEXT_WINDOW_CHARS - k) as nat,
            ),
        decreases CONTEXT_WINDOW_CHARS - k,
    {
        proof {
            lemma_before_is_boundary(b, j - 1);
        }
        j = floor_boundary(text, j - 1);
        k = k + 1;
    }
    j
}

/// The end of the up to `CONTEXT_WINDOW_CHARS` characters after `end`.
fn window_end_of(text: &str, end: usize) -> (r: usize)
    requires
        char_boundary(text, end as int),
    ensures
        r == window_end(text.spec_bytes(), end as int),
        end <= r,
        char_boundary(text, r as int),
{
    let ghost b = text.spec_bytes();
    let n = text.as_bytes().len();
    let mut j = end;
    let mut k: usize = 0;
    proof {
        is_char_boundary_start_end_of_seq(b);
        if end > n {
            assert(!is_char_boundary(b, end as int));
        }
        lemma_forward_chars(b, end as int, CONTEXT_WINDOW_CHARS as nat);
    }
    while k < CONTEXT_WINDOW_CHARS && j < n
        invariant
            b == text.spec_bytes(),
            n == b.len(),
            k <= CONTEXT_WINDOW_CHARS,
            end <= j <= n,
            is_char_boundary(b, j as int),
            forward_chars(b, end as int, CONTEXT_WINDOW_CHARS as nat) == forward_chars(
                b,
                j as int,
                (CONTEXT_WINDOW_CHARS - k) as nat,
            ),
        decreases CONTEXT_WINDOW_CHARS - k,
    {
        proof {
            lemma_after_is_boundary(b, j + 1);
        }
        j = ceil_boundary(text, j + 1);
        k = k + 1;
    }
    j
}

/// The text searched for context words: the window before the match, a space, and
/// the window after it.
pub open spec fn context_haystack(text: Seq<char>, start: int, end: int) -> Seq<char> {
    let b = encode_utf8(text);
    decode_utf8(b.subrange(window_start(b, start), start)) + seq![' '] + decode_utf8(
        b.subrange(end, window_end(b, end)),
    )
}

/// `needle` occurs in `hay` at byte offset `i`.
pub open spec fn occurs_at(hay: Seq<u8>, needle: Seq<u8>, i: int) -> bool {
    0 <= i && i + needle.len() <= hay.len() && hay.subrange(i, i + needle.len()) == needle
}

/// `needle` occurs somewhere in `hay` (the empty needle occurs everywhere).
pub open spec fn contains_bytes(hay: Seq<u8>, needle: Seq<u8>) -> bool {
    exists|i: int| occurs_at(hay, needle, i)
}

/// Whether `needle` occurs in `hay`, as `str::contains` decides on their bytes.
fn bytes_contain(hay: &[u8], needle: &[u8]) -> (r: bool)
    ensures
        r == contains_bytes(hay@, needle@),
{
    if needle.len() == 0 {
        proof {
            assert(hay@.subrange(0, 0) =~= needle@);
            assert(occurs_at(hay@, needle@, 0));
        }
        return true;
    }
    if needle.len() > hay.len() {
        proof {
            assert forall|i: int| !occurs_at(hay@, needle@, i) by {}
        }
        return false;
    }
    let last = hay.len() - needle.len();
    proof {
        assert(hay@.len() == hay.len());
    }
    let mut i: usize = 0;
    while i <= last
        invariant
            hay@.len() <= usize::MAX,
            needle@.len() >= 1,
            needle@.len() <= hay@.len(),
            last == hay@.len() - needle@.len(),
            i <= last + 1,
            forall|k: int| 0 <= k < i ==> !occurs_at(hay@, needle@, k),
        decreases last + 1 - i,
    {
        let mut j: usize = 0;
        let mut same = true;
        while j < needle.len()
            invariant
                hay@.len() <= usize::MAX,
                i <= last,
                needle@.len() <= hay@.len(),
                last == hay@.len() - needle@.len(),
                j <= needle@.len(),
                same == forall|m: int| 0 <= m < j ==> hay@[i + m] == needle@[m],
            decreases needle@.len() - j,
        {
            if hay[i + j] != needle[j] {
                same = false;
            }
            j = j + 1;
        }
        if same {
            proof {
                assert(hay@.subrange(i as int, i + needle@.len()) =~= needle@);
                assert(occurs_at(hay@, needle@, i as int));
            }
            return true;
        }
        proof {
            assert(!occurs_at(hay@, needle@, i as int)) by {
                if occurs_at(hay@, needle@, i as int) {
                    assert forall|m: int| 0 <= m < needle@.len() implies hay@[i + m] == needle@[m] by {
                        assert(hay@.subrange(i as int, i + needle@.len())[m] == needle@[m]);
                    }
                }
            }
        }
        i = i + 1;
    }
    proof {
        assert forall|k: int| !occurs_at(hay@, needle@, k) by {
            if 0 <= k && k + needle@.len() <= hay@.len() {
                assert(k <= last);
            }
        }
    }
    false
}

/// Whether the lowercase haystack of a match contains the lowercase form of one of
/// the context words.
pub open spec fn context_hit(
    text: Seq<char>,
    start: int,
    end: int,
    words: Seq<Seq<char>>,
) -> bool {
    exists|k: int|
        0 <= k < words.len() && contains_bytes(
            encode_utf8(unicode_lowercase(context_haystack(text, start, end))),
            encode_utf8(unicode_lowercase(#[trigger] words[k])),
        )
}

/// The texts of a list of context words.
pub open spec fn word_views(words: Seq<&str>) -> Seq<Seq<char>> {
    words.map_values(|w: &str| w@)
}

/// Whether a context word occurs near the match `start..end` of `text`: in the up to
/// 40 characters before it or the up to 40 characters after it, compared in
/// lowercase.
pub fn has_context_hit(text: &str, start: usize, end: usize, context: &[&str]) -> (r: bool)
    requires
        char_boundary(text, start as int),
        char_boundary(text, end as int),
    ensures
        r == context_hit(text@, start as int, end as int, word_views(context@)),
{
    let pre = window_start_of(text, start);
    let post = window_end_of(text, end);
    let prefix = slice_between(text, pre, start);
    let suffix = slice_between(text, end, post);
    let mut hay = String::from_str(prefix);
    proof {
        reveal_strlit(" ");
    }
    hay.append(" ");
    hay.append(suffix);
    let lower = lowercase(hay.as_str());
    proof {
        assert(hay@ == context_haystack(text@, start as int, end as int));
    }
    let hay_bytes = lower.as_str().as_bytes();
    let mut k: usize = 0;
    while k < context.len()
        invariant
            k <= context@.len(),
            hay_bytes@ == encode_utf8(unicode_lowercase(context_haystack(text@, start as int, end as int))),
            forall|j: int|
                0 <= j < k ==> !contains_bytes(
                    hay_bytes@,
                    encode_utf8(unicode_lowercase(#[trigger] word_views(context@)[j])),
                ),
        decreases context@.len() - k,
    {
        let word = lowercase(context[k]);
        if bytes_contain(hay_bytes, word.as_str().as_bytes()) {
            proof {
                assert(word_views(context@)[k as int] == context@[k as int]@);
            }
            return true;
        }
        proof {
            assert(word_views(context@)[k as int] == context@[k as int]@);
        }
        k = k + 1;
    }
    false
}

} // verus!
