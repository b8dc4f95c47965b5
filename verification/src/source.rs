//! Source text as a sequence of characters: byte offsets, runs of
//! characters of one class, line counting, and the white space and comments
//! between tokens.

use crate::chars::{digit, identifier_part, utf8_width, whitespace};
use vstd::prelude::*;

verus! {

/// The byte offset of the character at index `k` in the UTF-8 encoding of
/// `s`: the widths of the characters before it, summed up. At `s.len()` it
/// is the length of the encoding.
pub open spec fn byte_offset(s: Seq<char>, k: int) -> int
    decreases k,
{
    if k <= 0 || k > s.len() {
        0
    } else {
        byte_offset(s, k - 1) + utf8_width(s[k - 1])
    }
}

/// The length of `s` in bytes, encoded as UTF-8.
pub open spec fn byte_len(s: Seq<char>) -> int {
    byte_offset(s, s.len() as int)
}

/// The classes of characters of which the scanner consumes whole runs.
pub enum Run {
    /// Decimal digits.
    Digits,
    /// Everything but a line feed: the rest of a line.
    Line,
    /// Everything but a double quote: the inside of a string literal.
    StringBody,
    /// Letters, digits and `_`: the rest of an identifier.
    Word,
}

/// Whether `c` belongs to the class `run`.
pub open spec fn belongs(run: Run, c: char) -> bool {
    match run {
        Run::Digits => digit(c),
        Run::Line => c != '\n',
        Run::StringBody => c != '"',
        Run::Word => identifier_part(c),
    }
}

/// The end of the longest run of characters of class `run` that starts at
/// `from`: the index of the first character at or after `from` that is not
/// of the class, or `s.len()` where there is none.
pub open spec fn run_end(s: Seq<char>, from: int, run: Run) -> int
    decreases s.len() - from,
{
    if 0 <= from < s.len() && belongs(run, s[from]) {
        run_end(s, from + 1, run)
    } else {
        from
    }
}

/// The number of line feeds in `s` from index `from` up to, not including,
/// index `to`.
pub open spec fn count_newlines(s: Seq<char>, from: int, to: int) -> int
    decreases to - from,
{
    if to <= from || from < 0 || to > s.len() {
        0
    } else {
        count_newlines(s, from, to - 1) + if s[to - 1] == '\n' {
            1int
        } else {
            0int
        }
    }
}

/// Whether a comment starts at index `at`: two slashes in a row.
pub open spec fn comment_at(s: Seq<char>, at: int) -> bool {
    0 <= at && at + 1 < s.len() && s[at] == '/' && s[at + 1] == '/'
}

/// The index of the first character at or after `from` that is neither
/// white space nor part of a comment, or `s.len()` where there is none. A
/// comment runs from two slashes to the end of its line; the line feed is
/// not part of it.
pub open spec fn trivia_end(s: Seq<char>, from: int) -> int
    decreases s.len() - from,
{
    if 0 <= from < s.len() {
        if whitespace(s[from]) {
            trivia_end(s, from + 1)
        } else if comment_at(s, from) {
            proof {
                lemma_run_end(s, from + 2, Run::Line);
            }
            trivia_end(s, run_end(s, from + 2, Run::Line))
        } else {
            from
        }
    } else {
        from
    }
}

/// A run ends between its start and the end of the text, holds only
/// characters of its class, and is followed by none of them.
pub proof fn lemma_run_end(s: Seq<char>, from: int, run: Run)
    requires
        0 <= from <= s.len(),
    ensures
        from <= run_end(s, from, run) <= s.len(),
        forall|i: int| from <= i < run_end(s, from, run) ==> belongs(run, #[trigger] s[i]),
        run_end(s, from, run) < s.len() ==> !belongs(run, s[run_end(s, from, run)]),
    decreases s.len() - from,
{
    if from < s.len() && belongs(run, s[from]) {
        lemma_run_end(s, from + 1, run);
    }
}

/// A stretch whose characters all belong to the class, followed by a
/// character that does not or by the end of the text, is the run.
pub proof fn lemma_run_end_is(s: Seq<char>, from: int, end: int, run: Run)
    requires
        0 <= from <= end <= s.len(),
        forall|i: int| from <= i < end ==> belongs(run, #[trigger] s[i]),
        end < s.len() ==> !belongs(run, s[end]),
    ensures
        run_end(s, from, run) == end,
    decreases end - from,
{
    if from < end {
        lemma_run_end_is(s, from + 1, end, run);
    }
}

/// Byte offsets grow with the index, by at least one byte and at most four
/// for each character.
pub proof fn lemma_byte_offset_grows(s: Seq<char>, i: int, j: int)
    requires
        0 <= i <= j <= s.len(),
    ensures
        byte_offset(s, i) + (j - i) <= byte_offset(s, j) <= byte_offset(s, i) + 4 * (j - i),
        0 <= byte_offset(s, i),
    decreases j,
{
    if i < j {
        lemma_byte_offset_grows(s, i, j - 1);
    } else if 0 < i {
        lemma_byte_offset_grows(s, i - 1, i - 1);
    }
}

/// Over a stretch of ASCII characters, byte offsets grow by one for each
/// character.
pub proof fn lemma_byte_offset_ascii(s: Seq<char>, i: int, j: int)
    requires
        0 <= i <= j <= s.len(),
        forall|k: int| i <= k < j ==> crate::chars::ascii(#[trigger] s[k]),
    ensures
        byte_offset(s, j) == byte_offset(s, i) + (j - i),
    decreases j - i,
{
    if i < j {
        lemma_byte_offset_ascii(s, i, j - 1);
    }
}

/// The width of a character is the length of its UTF-8 encoding.
pub proof fn lemma_width_is_encoded(c: char)
    ensures
        utf8_width(c) == vstd::utf8::encode_scalar(c as u32).len(),
{
    vstd::utf8::char_is_scalar(c);
}

/// Byte offsets in a text without its first character lie behind those in
/// the text by the width of that character.
pub proof fn lemma_byte_offset_drop_first(s: Seq<char>, k: int)
    requires
        1 <= k <= s.len(),
    ensures
        byte_offset(s, k) == utf8_width(s[0]) + byte_offset(s.drop_first(), k - 1),
    decreases k,
{
    if k > 1 {
        lemma_byte_offset_drop_first(s, k - 1);
        assert(s.drop_first()[k - 2] == s[k - 1]);
    } else {
        assert(byte_offset(s, 0) == 0);
        assert(byte_offset(s.drop_first(), 0) == 0);
    }
}

/// The length in bytes is the length of the UTF-8 encoding: that of the
/// `str` whose characters these are.
pub proof fn lemma_byte_len_is_encoded(s: Seq<char>)
    ensures
        byte_len(s) == vstd::utf8::encode_utf8(s).len(),
    decreases s.len(),
{
    if s.len() > 0 {
        lemma_byte_len_is_encoded(s.drop_first());
        lemma_byte_offset_drop_first(s, s.len() as int);
        lemma_width_is_encoded(s[0]);
    }
}

/// Byte offsets depend on the characters before them only.
pub proof fn lemma_byte_offset_of_prefix(s: Seq<char>, k: int, n: int)
    requires
        0 <= k <= n <= s.len(),
    ensures
        byte_offset(s.take(n), k) == byte_offset(s, k),
    decreases k,
{
    if k > 0 {
        lemma_byte_offset_of_prefix(s, k - 1, n);
    }
}

/// The byte offset of the character at index `k` is the length of the
/// UTF-8 encoding of the characters before it.
pub proof fn lemma_byte_offset_is_encoded(s: Seq<char>, k: int)
    requires
        0 <= k <= s.len(),
    ensures
        byte_offset(s, k) == vstd::utf8::encode_utf8(s.take(k)).len(),
{
    lemma_byte_offset_of_prefix(s, k, k);
    lemma_byte_len_is_encoded(s.take(k));
}

/// Whether `source` is short enough to scan: its length in bytes is below
/// the largest machine word.
pub fn fits(source: &str) -> (fits: bool)
    ensures
        fits == (byte_len(source@) < usize::MAX),
{
    proof {
        lemma_byte_len_is_encoded(source@);
    }
    source.as_bytes().len() < usize::MAX
}

/// Line feeds are counted piece by piece.
pub proof fn lemma_count_newlines_split(s: Seq<char>, from: int, mid: int, to: int)
    requires
        0 <= from <= mid <= to <= s.len(),
    ensures
        count_newlines(s, from, to) == count_newlines(s, from, mid) + count_newlines(s, mid, to),
        0 <= count_newlines(s, from, to) <= to - from,
    decreases to - mid,
{
    if mid < to {
        lemma_count_newlines_split(s, from, mid, to - 1);
    } else {
        lemma_count_newlines_bounds(s, from, to);
    }
}

/// No more line feeds than characters.
pub proof fn lemma_count_newlines_bounds(s: Seq<char>, from: int, to: int)
    requires
        0 <= from <= to <= s.len(),
    ensures
        0 <= count_newlines(s, from, to) <= to - from,
    decreases to - from,
{
    if from < to {
        lemma_count_newlines_bounds(s, from, to - 1);
    }
}

/// A stretch without a line feed counts none.
pub proof fn lemma_count_newlines_none(s: Seq<char>, from: int, to: int)
    requires
        0 <= from <= to <= s.len(),
        forall|i: int| from <= i < to ==> #[trigger] s[i] != '\n',
    ensures
        count_newlines(s, from, to) == 0,
    decreases to - from,
{
    if from < to {
        lemma_count_newlines_none(s, from, to - 1);
    }
}

/// White space and comments end between their start and the end of the
/// text, at a character that is neither white space nor the start of a
/// comment.
pub proof fn lemma_trivia_end(s: Seq<char>, from: int)
    requires
        0 <= from <= s.len(),
    ensures
        from <= trivia_end(s, from) <= s.len(),
        trivia_end(s, from) < s.len() ==> !whitespace(s[trivia_end(s, from)]) && !comment_at(
            s,
            trivia_end(s, from),
        ),
        trivia_end(s, trivia_end(s, from)) == trivia_end(s, from),
    decreases s.len() - from,
{
    if from < s.len() {
        if whitespace(s[from]) {
            lemma_trivia_end(s, from + 1);
        } else if comment_at(s, from) {
            lemma_run_end(s, from + 2, Run::Line);
            lemma_trivia_end(s, run_end(s, from + 2, Run::Line));
        }
    }
}

} // verus!
