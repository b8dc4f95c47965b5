//! The scanner as a mathematical object: a cursor over a sequence of
//! characters, and what each scanning step makes of it.

use crate::chars::{digit, identifier_start};
use crate::source::{
    byte_len, byte_offset, count_newlines, lemma_byte_offset_grows, lemma_count_newlines_bounds,
    lemma_run_end, lemma_trivia_end, run_end, trivia_end, Run,
};
use crate::token::{word_kind, Token, TokenType};
use vstd::prelude::*;

verus! {

/// The state of a scanner.
pub struct Cursor {
    /// The source text.
    pub source: Seq<char>,
    /// How many characters have been read from the source.
    pub pos: int,
    /// The current line, counted from 1.
    pub line: int,
    /// The byte offset at which the span of the current token starts.
    pub start: int,
    /// The byte offset at which the span of the current token ends: one
    /// past the offset of the last character counted to it.
    pub next: int,
    /// A character that was read and handed back, with its byte offset. It
    /// is the first character of the next token.
    pub pending: Option<(int, char)>,
}

impl Cursor {
    /// The cursor at the start of `source`.
    pub open spec fn initial(source: Seq<char>) -> Cursor {
        Cursor { source, pos: 0, line: 1, start: 0, next: 0, pending: None }
    }

    /// The cursor is well formed: it lies inside the text, the span of the
    /// current token lies before what is still unread, a pending character
    /// is the one read last, and all positions fit in a machine word.
    pub open spec fn wf(self) -> bool {
        &&& 0 <= self.pos <= self.source.len()
        &&& 1 <= self.line <= self.pos + 1
        &&& 0 <= self.start <= self.next
        &&& byte_len(self.source) < usize::MAX
        &&& match self.pending {
            Some((at, c)) => {
                &&& self.pos >= 1
                &&& at == byte_offset(self.source, self.pos - 1)
                &&& c == self.source[self.pos - 1]
                &&& self.next <= at
            },
            None => self.next <= byte_offset(self.source, self.pos),
        }
    }

    /// Whether every character of the source has been read.
    pub open spec fn at_end(self) -> bool {
        self.pos >= self.source.len()
    }

    /// The next unread character, if there is one.
    pub open spec fn peek(self) -> Option<char> {
        if self.at_end() {
            None
        } else {
            Some(self.source[self.pos])
        }
    }

    /// What is left to scan: the unread characters and the pending one.
    pub open spec fn remaining(self) -> int {
        self.source.len() - self.pos + if self.pending is Some {
            1int
        } else {
            0int
        }
    }

    /// The cursor after reading one character and counting it to the
    /// current token; unchanged at the end of the source.
    pub open spec fn advance(self) -> Cursor {
        if self.at_end() {
            self
        } else {
            Cursor { pos: self.pos + 1, next: byte_offset(self.source, self.pos) + 1, ..self }
        }
    }

    /// The cursor after reading the characters up to index `to`, each
    /// counted to the current token.
    pub open spec fn advance_to(self, to: int) -> Cursor {
        if self.pos < to <= self.source.len() {
            Cursor { pos: to, next: byte_offset(self.source, to - 1) + 1, ..self }
        } else {
            self
        }
    }

    /// The token of kind `kind` that the cursor emits: its span and line.
    pub open spec fn token<'a>(self, kind: TokenType<'a>) -> Token<'a> {
        Token {
            token_type: kind,
            start: self.start as usize,
            length: (self.next - self.start) as usize,
            line: self.line as usize,
        }
    }

    /// The cursor after reading the next character if it is `expected`.
    pub open spec fn match_next(self, expected: char) -> Cursor {
        if self.peek() == Some(expected) {
            self.advance()
        } else {
            self
        }
    }

    /// The cursor after skipping white space and comments. Each line feed
    /// on the way counts a line. A slash that starts no comment is read and
    /// handed back as the pending character. Nothing is skipped while a
    /// character is pending, and the span of the current token stays as it
    /// is.
    pub open spec fn skip_whitespace(self) -> Cursor {
        if self.pending is Some {
            self
        } else {
            let end = trivia_end(self.source, self.pos);
            let line = self.line + count_newlines(self.source, self.pos, end);
            if end < self.source.len() && self.source[end] == '/' {
                Cursor {
                    pos: end + 1,
                    line,
                    pending: Some((byte_offset(self.source, end), '/')),
                    ..self
                }
            } else {
                Cursor { pos: end, line, ..self }
            }
        }
    }

    /// The rest of a string literal, its opening quote read: the cursor after
    /// it and the token. The literal runs to the next double quote, line
    /// feeds in it counting lines; without one it runs to the end of the
    /// source and is an error.
    pub open spec fn make_string(self) -> (Cursor, Token<'static>) {
        let close = run_end(self.source, self.pos, Run::StringBody);
        let body = Cursor {
            line: self.line + count_newlines(self.source, self.pos, close),
            ..self.advance_to(close)
        };
        if close < self.source.len() {
            let done = body.advance();
            (done, done.token(TokenType::STRING))
        } else {
            (body, body.token(TokenType::ERROR("Unterminated string.")))
        }
    }

    /// The rest of a number literal, its first digit read: the cursor after
    /// it and the token. Digits are followed by a fraction where a point and
    /// at least one digit come next. A point that no digit follows is read
    /// and handed back as the pending character.
    pub open spec fn make_number(self) -> (Cursor, Token<'static>) {
        let whole = self.advance_to(run_end(self.source, self.pos, Run::Digits));
        if whole.peek() == Some('.') {
            let point = Cursor { pos: whole.pos + 1, ..whole };
            if !point.at_end() && digit(self.source[point.pos]) {
                let done = point.advance_to(run_end(self.source, point.pos, Run::Digits));
                (done, done.token(TokenType::NUMBER))
            } else {
                let back = Cursor {
                    pending: Some((byte_offset(self.source, whole.pos), '.')),
                    ..point
                };
                (back, back.token(TokenType::NUMBER))
            }
        } else {
            (whole, whole.token(TokenType::NUMBER))
        }
    }

    /// The rest of an identifier or keyword, its first character `first`
    /// read: the cursor after it and the token, whose kind is that of the
    /// whole word.
    pub open spec fn make_identifier(self, first: char) -> (Cursor, Token<'static>) {
        let end = run_end(self.source, self.pos, Run::Word);
        let done = self.advance_to(end);
        (done, done.token(word_kind(seq![first] + self.source.subrange(self.pos, end))))
    }

    /// An operator of one character, or of two where `=` comes next.
    pub open spec fn one_or_two(self, one: TokenType<'static>, two: TokenType<'static>) -> (
        Cursor,
        Token<'static>,
    ) {
        let done = self.match_next('=');
        if self.peek() == Some('=') {
            (done, done.token(two))
        } else {
            (done, done.token(one))
        }
    }

    /// The token that starts with the character `c`, already read, and the
    /// cursor after the token.
    pub open spec fn dispatch(self, c: char) -> (Cursor, Token<'static>) {
        if c == '(' {
            (self, self.token(TokenType::LEFT_PAREN))
        } else if c == ')' {
            (self, self.token(TokenType::RIGHT_PAREN))
        } else if c == '{' {
            (self, self.token(TokenType::LEFT_BRACE))
        } else if c == '}' {
            (self, self.token(TokenType::RIGHT_BRACE))
        } else if c == ';' {
            (self, self.token(TokenType::SEMICOLON))
        } else if c == ',' {
            (self, self.token(TokenType::COMMA))
        } else if c == '.' {
            (self, self.token(TokenType::DOT))
        } else if c == '-' {
            (self, self.token(TokenType::MINUS))
        } else if c == '+' {
            (self, self.token(TokenType::PLUS))
        } else if c == '/' {
            (self, self.token(TokenType::SLASH))
        } else if c == '*' {
            (self, self.token(TokenType::STAR))
        } else if c == '!' {
            self.one_or_two(TokenType::BANG, TokenType::BANG_EQUAL)
        } else if c == '=' {
            self.one_or_two(TokenType::EQUAL, TokenType::EQUAL_EQUAL)
        } else if c == '<' {
            self.one_or_two(TokenType::LESS, TokenType::LESS_EQUAL)
        } else if c == '>' {
            self.one_or_two(TokenType::GREATER, TokenType::GREATER_EQUAL)
        } else if c == '"' {
            self.make_string()
        } else if digit(c) {
            self.make_number()
        } else if identifier_start(c) {
            self.make_identifier(c)
        } else {
            (self, self.token(TokenType::ERROR("Unexpected character.")))
        }
    }

    /// The cursor with the span of the next token opened where that of the
    /// last one ended.
    pub open spec fn begin(self) -> Cursor {
        Cursor { start: self.next, ..self }
    }

    /// The next token and the cursor after it. White space and comments are
    /// skipped first, unless a character is pending. The span of the token
    /// starts where the span of the token before it ended. The first
    /// character is the pending one, if there is one, else the next of the
    /// source; at the end of the source the token is `EOF`, with an empty
    /// span.
    pub open spec fn scan_token(self) -> (Cursor, Token<'static>) {
        let fresh = self.skip_whitespace().begin();
        match fresh.pending {
            Some((at, c)) => Cursor { next: at + 1, pending: None, ..fresh }.dispatch(c),
            None => {
                if fresh.at_end() {
                    (fresh, fresh.token(TokenType::EOF))
                } else {
                    fresh.advance().dispatch(fresh.source[fresh.pos])
                }
            },
        }
    }

    /// The tokens that scanning hands out from here on, up to and including
    /// the first `EOF`.
    pub open spec fn tokens(self) -> Seq<Token<'static>>
        decreases self.remaining(),
        when self.wf()
    {
        let (after, token) = self.scan_token();
        if token.token_type == TokenType::EOF {
            seq![token]
        } else {
            proof {
                lemma_scan_token(self);
            }
            seq![token] + after.tokens()
        }
    }
}

/// Reading characters keeps a cursor well formed and moves the end of the
/// token's span forward.
pub proof fn lemma_advance_to(c: Cursor, to: int)
    requires
        c.wf(),
        c.pending is None,
        c.pos <= to <= c.source.len(),
    ensures
        c.advance_to(to).wf(),
        c.advance_to(to).pos == to,
        c.next <= c.advance_to(to).next <= byte_offset(c.source, to),
        c.pos < to ==> c.next < c.advance_to(to).next,
{
    if c.pos < to {
        lemma_byte_offset_grows(c.source, c.pos, to - 1);
        lemma_byte_offset_grows(c.source, to - 1, to);
    }
}

/// Reading one character keeps a cursor well formed.
pub proof fn lemma_advance(c: Cursor)
    requires
        c.wf(),
        c.pending is None,
    ensures
        c.advance().wf(),
        c.advance() == c.advance_to(c.pos + 1),
        c.next <= c.advance().next,
        !c.at_end() ==> c.next < c.advance().next,
{
    if !c.at_end() {
        lemma_advance_to(c, c.pos + 1);
    }
}

/// Skipping white space and comments keeps a cursor well formed.
pub proof fn lemma_skip_whitespace(c: Cursor)
    requires
        c.wf(),
    ensures
        c.skip_whitespace().wf(),
        c.skip_whitespace().remaining() <= c.remaining(),
        c.skip_whitespace().line >= c.line,
{
    if c.pending is None {
        let end = trivia_end(c.source, c.pos);
        lemma_trivia_end(c.source, c.pos);
        lemma_count_newlines_bounds(c.source, c.pos, end);
        lemma_byte_offset_grows(c.source, c.pos, end);
        if end < c.source.len() {
            lemma_byte_offset_grows(c.source, end, end + 1);
        }
    }
}

/// Scanning a string literal keeps a cursor well formed.
pub proof fn lemma_make_string(c: Cursor)
    requires
        c.wf(),
        c.pending is None,
    ensures
        c.make_string().0.wf(),
        c.make_string().0.pending is None,
        c.make_string().0.pos >= c.pos,
        c.make_string().0.start == c.start,
        c.make_string().0.line >= c.line,
{
    let close = run_end(c.source, c.pos, Run::StringBody);
    lemma_run_end(c.source, c.pos, Run::StringBody);
    lemma_advance_to(c, close);
    lemma_count_newlines_bounds(c.source, c.pos, close);
    let body = Cursor {
        line: c.line + count_newlines(c.source, c.pos, close),
        ..c.advance_to(close)
    };
    assert(body.wf());
    lemma_advance(body);
}

/// Scanning a number literal keeps a cursor well formed.
pub proof fn lemma_make_number(c: Cursor)
    requires
        c.wf(),
        c.pending is None,
    ensures
        c.make_number().0.wf(),
        c.make_number().0.remaining() <= c.remaining(),
        c.make_number().0.start == c.start,
{
    let whole_end = run_end(c.source, c.pos, Run::Digits);
    lemma_run_end(c.source, c.pos, Run::Digits);
    lemma_advance_to(c, whole_end);
    let whole = c.advance_to(whole_end);
    if whole.peek() == Some('.') {
        let point = Cursor { pos: whole.pos + 1, ..whole };
        lemma_byte_offset_grows(c.source, whole.pos, whole.pos + 1);
        assert(point.wf());
        if !point.at_end() && digit(c.source[point.pos]) {
            lemma_run_end(c.source, point.pos, Run::Digits);
            lemma_advance_to(point, run_end(c.source, point.pos, Run::Digits));
        }
    }
}

/// Scanning an identifier keeps a cursor well formed.
pub proof fn lemma_make_identifier(c: Cursor, first: char)
    requires
        c.wf(),
        c.pending is None,
    ensures
        c.make_identifier(first).0.wf(),
        c.make_identifier(first).0.pending is None,
        c.make_identifier(first).0.pos >= c.pos,
        c.make_identifier(first).0.start == c.start,
{
    lemma_run_end(c.source, c.pos, Run::Word);
    lemma_advance_to(c, run_end(c.source, c.pos, Run::Word));
}

/// Scanning the token that a character starts keeps a cursor well formed
/// and reads no character back.
pub proof fn lemma_dispatch(c: Cursor, first: char)
    requires
        c.wf(),
        c.pending is None,
    ensures
        c.dispatch(first).0.wf(),
        c.dispatch(first).0.remaining() <= c.remaining(),
        c.dispatch(first).0.start == c.start,
        c.dispatch(first).0.source == c.source,
        c.dispatch(first).0.line >= c.line,
        c.dispatch(first).1.token_type != TokenType::EOF,
        c.dispatch(first).1 == c.dispatch(first).0.token(c.dispatch(first).1.token_type),
{
    lemma_advance(c);
    lemma_make_string(c);
    lemma_make_number(c);
    lemma_make_identifier(c, first);
}

/// Scanning a token keeps a cursor well formed. The span of the token
/// starts where that of the token before it ended. Unless the token is
/// `EOF`, something was consumed.
pub proof fn lemma_scan_token(c: Cursor)
    requires
        c.wf(),
    ensures
        c.scan_token().0.wf(),
        c.scan_token().0.source == c.source,
        c.scan_token().0.start == c.next,
        c.scan_token().0.line >= c.line,
        c.scan_token().1 == c.scan_token().0.token(c.scan_token().1.token_type),
        c.scan_token().1.token_type == TokenType::EOF ==> c.scan_token().1.length == 0,
        c.scan_token().1.token_type != TokenType::EOF ==> c.scan_token().0.remaining()
            < c.remaining(),
        c.scan_token().1.token_type == TokenType::EOF ==> c.scan_token().0.at_end()
            && c.scan_token().0.pending is None,
{
    lemma_skip_whitespace(c);
    let fresh = c.skip_whitespace().begin();
    assert(fresh.wf());
    match fresh.pending {
        Some((at, ch)) => {
            let drained = Cursor { next: at + 1, pending: None, ..fresh };
            lemma_byte_offset_grows(c.source, fresh.pos - 1, fresh.pos);
            assert(drained.wf());
            lemma_dispatch(drained, ch);
        },
        None => {
            if !fresh.at_end() {
                lemma_advance(fresh);
                lemma_dispatch(fresh.advance(), fresh.source[fresh.pos]);
            }
        },
    }
}

/// The tokens of a source end with `EOF`, and `EOF` comes nowhere else
/// among them.
pub proof fn lemma_tokens_end_with_eof(c: Cursor)
    requires
        c.wf(),
    ensures
        c.tokens().len() >= 1,
        c.tokens().last().token_type == TokenType::EOF,
        forall|i: int|
            0 <= i < c.tokens().len() - 1 ==> (#[trigger] c.tokens()[i]).token_type
                != TokenType::EOF,
    decreases c.remaining(),
{
    let (after, token) = c.scan_token();
    lemma_scan_token(c);
    if token.token_type != TokenType::EOF {
        lemma_tokens_end_with_eof(after);
        assert forall|i: int| 0 <= i < c.tokens().len() - 1 implies (#[trigger] c.tokens()[
            i
        ]).token_type != TokenType::EOF by {
            if i > 0 {
                assert(c.tokens()[i] == after.tokens()[i - 1]);
            }
        }
    }
}

/// The span of the first token starts where the cursor's last span ended,
/// and the span of each further token starts where that of the token
/// before it ends.
pub proof fn lemma_spans_adjoin(c: Cursor)
    requires
        c.wf(),
    ensures
        c.tokens()[0].start == c.next,
        forall|i: int|
            0 <= i < c.tokens().len() - 1 ==> (#[trigger] c.tokens()[i]).start + c.tokens()[i].length
                == c.tokens()[i + 1].start,
    decreases c.remaining(),
{
    let (after, token) = c.scan_token();
    lemma_scan_token(c);
    lemma_byte_offset_grows(c.source, after.pos, c.source.len() as int);
    if after.pending is Some {
        lemma_byte_offset_grows(c.source, after.pos - 1, after.pos);
    }
    if token.token_type != TokenType::EOF {
        lemma_spans_adjoin(after);
        assert forall|i: int| 0 <= i < c.tokens().len() - 1 implies (#[trigger] c.tokens()[
            i
        ]).start + c.tokens()[i].length == c.tokens()[i + 1].start by {
            if i > 0 {
                assert(c.tokens()[i] == after.tokens()[i - 1]);
                assert(c.tokens()[i + 1] == after.tokens()[i]);
            } else {
                assert(c.tokens()[1] == after.tokens()[0]);
            }
        }
    }
}

} // verus!
