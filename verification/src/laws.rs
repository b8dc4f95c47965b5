//! What holds of scanning whatever the source: how number literals and
//! comments come out.

use crate::chars::digit;
use crate::cursor::Cursor;
use crate::source::{
    byte_len, byte_offset, comment_at, count_newlines, lemma_byte_offset_ascii,
    lemma_count_newlines_none, lemma_count_newlines_split, lemma_run_end, lemma_run_end_is,
    lemma_trivia_end, run_end, trivia_end, Run,
};
use crate::token::{Token, TokenType};
use vstd::prelude::*;

verus! {

/// The characters of `s` from `from` up to `to` are digits, at least one.
pub open spec fn digits(s: Seq<char>, from: int, to: int) -> bool {
    0 <= from < to <= s.len() && forall|i: int| from <= i < to ==> digit(#[trigger] s[i])
}

/// A fraction stands in `s` from `point` up to `to`: a point and at least
/// one digit.
pub open spec fn fraction(s: Seq<char>, point: int, to: int) -> bool {
    0 <= point < s.len() && s[point] == '.' && digits(s, point + 1, to)
}

/// The cursor `c` after a number literal that ends at `to`, scanned from
/// where `c` stands.
pub open spec fn after_number(c: Cursor, to: int) -> Cursor {
    Cursor { pos: to, start: c.next, next: byte_offset(c.source, c.pos) + (to - c.pos), ..c }
}

/// No white space or comment starts at a digit.
proof fn lemma_digit_starts_token(c: Cursor)
    requires
        c.wf(),
        c.pending is None,
        !c.at_end(),
        digit(c.source[c.pos]),
    ensures
        c.skip_whitespace() == c,
{
    assert(trivia_end(c.source, c.pos) == c.pos);
}

/// A number literal without a fraction comes out as one `NUMBER` token
/// whose span ends with the literal: digits at the cursor, followed by the
/// end of the source or by a character that is neither a digit nor a
/// point. The span starts where the last token ended; so where nothing
/// stands between the two, it is the literal exactly.
pub proof fn lemma_whole_number(c: Cursor, to: int)
    requires
        c.wf(),
        c.pending is None,
        digits(c.source, c.pos, to),
        to < c.source.len() ==> !digit(c.source[to]) && c.source[to] != '.',
    ensures
        c.scan_token() == (after_number(c, to), after_number(c, to).token(TokenType::NUMBER)),
        c.scan_token().1.start == c.next,
        c.scan_token().1.start + c.scan_token().1.length == byte_offset(c.source, to),
        c.next == byte_offset(c.source, c.pos) ==> c.scan_token().1.length == to - c.pos,
{
    let s = c.source;
    lemma_digit_starts_token(c);
    lemma_run_end_is(s, c.pos + 1, to, Run::Digits);
    lemma_byte_offset_ascii(s, c.pos, to);
    lemma_byte_offset_ascii(s, to - 1, to);
    lemma_byte_offset_ascii(s, c.pos, c.pos + 1);
    crate::source::lemma_byte_offset_grows(s, to, s.len() as int);
    let first = c.begin().advance();
    assert(first.make_number().0 == after_number(c, to));
}

/// A number literal with a fraction comes out as one `NUMBER` token whose
/// span ends with the literal: digits at the cursor, a point, and digits
/// again, followed by the end of the source or by a character that is no
/// digit. The span starts where the last token ended; so where nothing
/// stands between the two, it is the literal exactly.
pub proof fn lemma_number_with_fraction(c: Cursor, point: int, to: int)
    requires
        c.wf(),
        c.pending is None,
        digits(c.source, c.pos, point),
        fraction(c.source, point, to),
        to < c.source.len() ==> !digit(c.source[to]),
    ensures
        c.scan_token() == (after_number(c, to), after_number(c, to).token(TokenType::NUMBER)),
        c.scan_token().1.start == c.next,
        c.scan_token().1.start + c.scan_token().1.length == byte_offset(c.source, to),
        c.next == byte_offset(c.source, c.pos) ==> c.scan_token().1.length == to - c.pos,
{
    let s = c.source;
    lemma_digit_starts_token(c);
    lemma_run_end_is(s, c.pos + 1, point, Run::Digits);
    lemma_run_end_is(s, point + 1, to, Run::Digits);
    assert forall|k: int| c.pos <= k < to implies crate::chars::ascii(#[trigger] s[k]) by {
        if k < point {
            assert(digit(s[k]));
        } else if k > point {
            assert(digit(s[k]));
        }
    }
    lemma_byte_offset_ascii(s, c.pos, to);
    lemma_byte_offset_ascii(s, to - 1, to);
    lemma_byte_offset_ascii(s, c.pos, c.pos + 1);
    crate::source::lemma_byte_offset_grows(s, to, s.len() as int);
    let first = c.begin().advance();
    assert(first.make_number().0 == after_number(c, to));
}

/// Digits with a point that no digit follows come out as a `NUMBER` token
/// whose span ends with the digits, and the token right after it is a `DOT`
/// whose span is the point.
pub proof fn lemma_number_then_dot(c: Cursor, point: int)
    requires
        c.wf(),
        c.pending is None,
        digits(c.source, c.pos, point),
        point < c.source.len(),
        c.source[point] == '.',
        point + 1 < c.source.len() ==> !digit(c.source[point + 1]),
    ensures
        c.scan_token().1 == (Token {
            token_type: TokenType::NUMBER,
            start: c.next as usize,
            length: (byte_offset(c.source, point) - c.next) as usize,
            line: c.line as usize,
        }),
        c.scan_token().0.scan_token().1 == (Token {
            token_type: TokenType::DOT,
            start: byte_offset(c.source, point) as usize,
            length: 1,
            line: c.line as usize,
        }),
        c.scan_token().0.scan_token().0 == (Cursor {
            pos: point + 1,
            start: byte_offset(c.source, point),
            next: byte_offset(c.source, point) + 1,
            ..c
        }),
{
    let s = c.source;
    lemma_digit_starts_token(c);
    lemma_run_end_is(s, c.pos + 1, point, Run::Digits);
    lemma_byte_offset_ascii(s, c.pos, point);
    lemma_byte_offset_ascii(s, point - 1, point);
    lemma_byte_offset_ascii(s, c.pos, c.pos + 1);
    crate::source::lemma_byte_offset_grows(s, point, s.len() as int);
    let first = c.begin().advance();
    let back = Cursor {
        pos: point + 1,
        start: c.next,
        next: byte_offset(s, point),
        pending: Some((byte_offset(s, point), '.')),
        ..c
    };
    assert(first.make_number().0 == back);
    assert(c.scan_token().0 == back);
    assert(back.skip_whitespace() == back);
}

/// `n` is a number literal: digits, at least one, and optionally a point
/// followed by digits, at least one.
pub open spec fn number_literal(n: Seq<char>) -> bool {
    digits(n, 0, n.len() as int) || exists|point: int|
        digits(n, 0, point) && fraction(n, point, n.len() as int)
}

/// At the end of the source, with nothing pending, the token is `EOF` and
/// the cursor stays where it is.
proof fn lemma_eof(c: Cursor)
    requires
        c.wf(),
        c.pending is None,
        c.at_end(),
    ensures
        c.scan_token() == (c.begin(), c.begin().token(TokenType::EOF)),
        c.tokens() == seq![c.begin().token(TokenType::EOF)],
{
    assert(trivia_end(c.source, c.pos) == c.pos);
    assert(c.skip_whitespace() == c);
}

/// A source that is one number literal yields one `NUMBER` token that
/// spans the literal exactly, and `EOF`.
pub proof fn lemma_number_alone(n: Seq<char>)
    requires
        number_literal(n),
        byte_len(n) < usize::MAX,
    ensures
        Cursor::initial(n).tokens() == seq![
            Token { token_type: TokenType::NUMBER, start: 0, length: n.len() as usize, line: 1 },
            Token { token_type: TokenType::EOF, start: n.len() as usize, length: 0, line: 1 },
        ],
{
    let c = Cursor::initial(n);
    let to = n.len() as int;
    assert(byte_offset(n, 0) == 0);
    if digits(n, 0, to) {
        lemma_whole_number(c, to);
    } else {
        let point = choose|point: int| digits(n, 0, point) && fraction(n, point, to);
        lemma_number_with_fraction(c, point, to);
    }
    let after = after_number(c, to);
    crate::cursor::lemma_scan_token(c);
    lemma_eof(after);
    assert(c.tokens() =~= seq![after.token(TokenType::NUMBER)] + after.tokens());
}

/// A source that is digits and a point yields a `NUMBER` token that spans
/// the digits, a `DOT` token that spans the point, and `EOF`.
pub proof fn lemma_number_and_point_alone(n: Seq<char>)
    requires
        n.len() >= 2,
        digits(n, 0, n.len() - 1),
        n.last() == '.',
        byte_len(n) < usize::MAX,
    ensures
        Cursor::initial(n).tokens() == seq![
            Token {
                token_type: TokenType::NUMBER,
                start: 0,
                length: (n.len() - 1) as usize,
                line: 1,
            },
            Token {
                token_type: TokenType::DOT,
                start: (n.len() - 1) as usize,
                length: 1,
                line: 1,
            },
            Token { token_type: TokenType::EOF, start: n.len() as usize, length: 0, line: 1 },
        ],
{
    let c = Cursor::initial(n);
    let point = n.len() - 1;
    assert(byte_offset(n, 0) == 0);
    lemma_number_then_dot(c, point);
    lemma_byte_offset_ascii(n, 0, point);
    let back = c.scan_token().0;
    let after = back.scan_token().0;
    crate::cursor::lemma_scan_token(c);
    crate::cursor::lemma_scan_token(back);
    lemma_eof(after);
    assert(back.tokens() =~= seq![back.scan_token().1] + after.tokens());
    assert(c.tokens() =~= seq![c.scan_token().1] + back.tokens());
}

/// A comment yields no token: scanning from the two slashes of a comment
/// gives what scanning from the end of its line gives, the same token and
/// the same cursor after it.
pub proof fn lemma_comment_is_skipped(c: Cursor)
    requires
        c.wf(),
        c.pending is None,
        comment_at(c.source, c.pos),
    ensures
        run_end(c.source, c.pos + 2, Run::Line) <= c.source.len(),
        c.scan_token() == (Cursor {
            pos: run_end(c.source, c.pos + 2, Run::Line),
            ..c
        }).scan_token(),
{
    let s = c.source;
    let end = run_end(s, c.pos + 2, Run::Line);
    lemma_run_end(s, c.pos + 2, Run::Line);
    let resumed = Cursor { pos: end, ..c };
    assert(trivia_end(s, c.pos) == trivia_end(s, end));
    lemma_trivia_end(s, end);
    let stop = trivia_end(s, end);
    lemma_count_newlines_split(s, c.pos, end, stop);
    assert forall|i: int| c.pos <= i < end implies #[trigger] s[i] != '\n' by {
        if i >= c.pos + 2 {
            assert(crate::source::belongs(Run::Line, s[i]));
        }
    }
    lemma_count_newlines_none(s, c.pos, end);
    assert(c.skip_whitespace() == resumed.skip_whitespace());
}

/// After a comment scanning resumes on the following line: where the line
/// of the comment ends with a line feed, scanning from the two slashes
/// gives what scanning from behind the line feed gives, one line further
/// on.
pub proof fn lemma_comment_ends_line(c: Cursor)
    requires
        c.wf(),
        c.pending is None,
        comment_at(c.source, c.pos),
        run_end(c.source, c.pos + 2, Run::Line) < c.source.len(),
    ensures
        c.source[run_end(c.source, c.pos + 2, Run::Line)] == '\n',
        c.scan_token() == (Cursor {
            pos: run_end(c.source, c.pos + 2, Run::Line) + 1,
            line: c.line + 1,
            ..c
        }).scan_token(),
{
    let s = c.source;
    let end = run_end(s, c.pos + 2, Run::Line);
    lemma_comment_is_skipped(c);
    lemma_run_end(s, c.pos + 2, Run::Line);
    let at_feed = Cursor { pos: end, ..c };
    let behind = Cursor { pos: end + 1, line: c.line + 1, ..c };
    assert(trivia_end(s, end) == trivia_end(s, end + 1));
    lemma_trivia_end(s, end + 1);
    let stop = trivia_end(s, end + 1);
    lemma_count_newlines_split(s, end, end + 1, stop);
    assert(count_newlines(s, end, end + 1) == 1) by {
        assert(count_newlines(s, end, end) == 0);
    }
    assert(at_feed.skip_whitespace() == behind.skip_whitespace());
}

} // verus!
