//! The scanner: a hand-written lexer that hands out one token per call.

use crate::chars::{is_digit, is_identifier_part, is_whitespace, width};
use crate::cursor::{
    lemma_advance, lemma_make_identifier, lemma_make_number, lemma_make_string,
    lemma_scan_token, lemma_skip_whitespace, Cursor,
};
use crate::source::{
    belongs, byte_len, byte_offset, count_newlines, lemma_byte_offset_grows,
    lemma_count_newlines_bounds, lemma_run_end, run_end, trivia_end, Run,
};
use crate::token::{lemma_keyword_texts, word_kind, Token, TokenType};
use vstd::prelude::*;

verus! {

/// A scanner over a source text.
pub struct Scanner {
    line: usize,
    start_char: usize,
    next_char: usize,
    chars: Vec<char>,
    /// The index in `chars` of the next unread character.
    pos: usize,
    /// The byte offset of the next unread character.
    offset: usize,
    ate_char: Option<(usize, char)>,
}

impl View for Scanner {
    type V = Cursor;

    closed spec fn view(&self) -> Cursor {
        Cursor {
            source: self.chars@,
            pos: self.pos as int,
            line: self.line as int,
            start: self.start_char as int,
            next: self.next_char as int,
            pending: match self.ate_char {
                Some((at, c)) => Some((at as int, c)),
                None => None,
            },
        }
    }
}

/// Whether `c` belongs to the class `run`.
fn in_run(run: &Run, c: char) -> (b: bool)
    ensures
        b == belongs(*run, c),
{
    match run {
        Run::Digits => is_digit(c),
        Run::Line => c != '\n',
        Run::StringBody => c != '"',
        Run::Word => is_identifier_part(c),
    }
}

impl Scanner {
    /// The scanner keeps the byte offset of the next unread character.
    pub closed spec fn synced(&self) -> bool {
        self.offset == byte_offset(self.chars@, self.pos as int)
    }

    /// The scanner is well formed.
    pub open spec fn wf(&self) -> bool {
        self@.wf() && self.synced()
    }

    /// A scanner at the start of `source`, on line 1.
    pub fn new(source: &str) -> (scanner: Scanner)
        requires
            byte_len(source@) < usize::MAX,
        ensures
            scanner.wf(),
            scanner@ == Cursor::initial(source@),
    {
        let mut chars: Vec<char> = Vec::new();
        for c in it: source.chars()
            invariant
                chars@ == it.seq().take(it.index() as int),
                it.seq() == source@,
        {
            chars.push(c);
        }
        assert(chars@ =~= source@);
        Scanner { line: 1, start_char: 0, next_char: 0, chars, pos: 0, offset: 0, ate_char: None }
    }

    /// Whether every character of the source has been read.
    pub fn is_at_end(&self) -> (b: bool)
        ensures
            b == self@.at_end(),
    {
        self.pos >= self.chars.len()
    }

    /// The next unread character, if there is one.
    pub fn peek(&self) -> (c: Option<char>)
        ensures
            c == self@.peek(),
    {
        if self.pos < self.chars.len() {
            Some(self.chars[self.pos])
        } else {
            None
        }
    }

    /// Reads one character without counting it to the current token.
    fn read(&mut self)
        requires
            old(self).wf(),
            old(self)@.pending is None,
            !old(self)@.at_end(),
        ensures
            final(self).wf(),
            final(self)@ == (Cursor { pos: old(self)@.pos + 1, ..old(self)@ }),
    {
        proof {
            lemma_byte_offset_grows(self.chars@, self.pos as int, self.pos + 1);
            lemma_byte_offset_grows(self.chars@, self.pos + 1, self.chars@.len() as int);
            lemma_byte_offset_grows(self.chars@, 0, self.chars@.len() as int);
        }
        let w = width(self.chars[self.pos]);
        self.offset = self.offset + w;
        self.pos = self.pos + 1;
    }

    /// Reads the next character and counts it to the current token: the end
    /// of the token's span moves one byte past the offset of the character.
    /// At the end of the source nothing changes and `None` is returned.
    pub fn advance(&mut self) -> (c: Option<char>)
        requires
            old(self).wf(),
            old(self)@.pending is None,
        ensures
            final(self).wf(),
            final(self)@ == old(self)@.advance(),
            c == old(self)@.peek(),
    {
        proof {
            lemma_advance(self@);
        }
        if self.pos < self.chars.len() {
            proof {
                lemma_byte_offset_grows(self.chars@, self.pos as int, self.pos + 1);
                lemma_byte_offset_grows(self.chars@, self.pos + 1, self.chars@.len() as int);
            }
            let c = self.chars[self.pos];
            self.next_char = self.offset + 1;
            self.offset = self.offset + width(c);
            self.pos = self.pos + 1;
            Some(c)
        } else {
            None
        }
    }

    /// Reads the next character, and counts it to the current token, if it
    /// is `expected`; says whether it was.
    pub fn match_next(&mut self, expected: char) -> (matched: bool)
        requires
            old(self).wf(),
            old(self)@.pending is None,
        ensures
            final(self).wf(),
            final(self)@ == old(self)@.match_next(expected),
            matched == (old(self)@.peek() == Some(expected)),
    {
        match self.peek() {
            Some(c) => {
                if c == expected {
                    let _ = self.advance();
                    true
                } else {
                    false
                }
            },
            None => false,
        }
    }

    /// The token of kind `token_type` with the current span and line.
    pub fn make_token<'b>(&self, token_type: TokenType<'b>) -> (token: Token<'b>)
        requires
            self.wf(),
        ensures
            token == self@.token(token_type),
    {
        Token {
            token_type,
            start: self.start_char,
            length: self.next_char - self.start_char,
            line: self.line,
        }
    }

    /// The error token that carries `error_message`, with the current span
    /// and line.
    pub fn error_token<'b>(&self, error_message: &'b str) -> (token: Token<'b>)
        requires
            self.wf(),
        ensures
            token == self@.token(TokenType::ERROR(error_message)),
    {
        self.make_token(TokenType::ERROR(error_message))
    }

    /// Reads the longest run of characters of class `run`, counting each to
    /// the current token.
    fn advance_run(&mut self, run: Run)
        requires
            old(self).wf(),
            old(self)@.pending is None,
        ensures
            final(self).wf(),
            final(self)@ == old(self)@.advance_to(
                run_end(old(self)@.source, old(self)@.pos, run),
            ),
    {
        let ghost before = self@;
        proof {
            lemma_run_end(before.source, before.pos, run);
        }
        while self.pos < self.chars.len() && in_run(&run, self.chars[self.pos])
            invariant
                self.wf(),
                before.wf(),
                before.pending is None,
                before.pos <= self@.pos <= before.source.len(),
                self@ == before.advance_to(self@.pos),
                run_end(before.source, self@.pos, run) == run_end(before.source, before.pos, run),
            decreases self.chars.len() - self.pos,
        {
            let _ = self.advance();
        }
    }

    /// Skips white space and comments; see [`Cursor::skip_whitespace`].
    pub fn skip_whitespace(&mut self)
        requires
            old(self).wf(),
        ensures
            final(self).wf(),
            final(self)@ == old(self)@.skip_whitespace(),
    {
        let ghost before = self@;
        proof {
            lemma_skip_whitespace(before);
        }
        if self.ate_char.is_some() {
            return ;
        }
        loop
            invariant
                self.wf(),
                before == old(self)@,
                before.wf(),
                before.pending is None,
                before.pos <= self@.pos <= before.source.len(),
                self@ == (Cursor {
                    pos: self@.pos,
                    line: before.line + count_newlines(before.source, before.pos, self@.pos),
                    ..before
                }),
                trivia_end(before.source, self@.pos) == trivia_end(before.source, before.pos),
            decreases self.chars.len() - self.pos,
        {
            if self.pos >= self.chars.len() {
                assert(trivia_end(before.source, self@.pos) == self@.pos);
                return ;
            }
            let c = self.chars[self.pos];
            if is_whitespace(c) {
                proof {
                    lemma_count_newlines_bounds(before.source, before.pos, self@.pos);
                    lemma_byte_offset_grows(before.source, 0, before.source.len() as int);
                }
                self.read();
                if c == '\n' {
                    self.line = self.line + 1;
                }
            } else if c == '/' {
                if self.pos + 1 < self.chars.len() && self.chars[self.pos + 1] == '/' {
                    let ghost slash = self@.pos;
                    self.read();
                    self.read();
                    assert(count_newlines(before.source, before.pos, slash + 1) == count_newlines(
                        before.source,
                        before.pos,
                        slash,
                    ));
                    assert(count_newlines(before.source, before.pos, slash + 2) == count_newlines(
                        before.source,
                        before.pos,
                        slash + 1,
                    ));
                    while self.pos < self.chars.len() && self.chars[self.pos] != '\n'
                        invariant
                            self.wf(),
                            before.wf(),
                            before.pending is None,
                            before.pos <= slash,
                            slash + 2 <= self@.pos <= before.source.len(),
                            self@ == (Cursor {
                                pos: self@.pos,
                                line: before.line + count_newlines(
                                    before.source,
                                    before.pos,
                                    self@.pos,
                                ),
                                ..before
                            }),
                            run_end(before.source, self@.pos, Run::Line) == run_end(
                                before.source,
                                slash + 2,
                                Run::Line,
                            ),
                            trivia_end(before.source, slash) == trivia_end(
                                before.source,
                                before.pos,
                            ),
                            crate::source::comment_at(before.source, slash),
                            !crate::chars::whitespace(before.source[slash]),
                        decreases self.chars.len() - self.pos,
                    {
                        self.read();
                    }
                    proof {
                        lemma_run_end(before.source, slash + 2, Run::Line);
                    }
                } else {
                    assert(trivia_end(before.source, self@.pos) == self@.pos);
                    let at = self.offset;
                    self.read();
                    self.ate_char = Some((at, '/'));
                    return ;
                }
            } else {
                assert(trivia_end(before.source, self@.pos) == self@.pos);
                return ;
            }
        }
    }
}

impl Scanner {
    /// Scans the rest of a string literal, its opening quote read; see
    /// [`Cursor::make_string`].
    pub fn make_string(&mut self) -> (token: Token<'static>)
        requires
            old(self).wf(),
            old(self)@.pending is None,
        ensures
            final(self).wf(),
            (final(self)@, token) == old(self)@.make_string(),
    {
        let ghost before = self@;
        let ghost close = run_end(before.source, before.pos, Run::StringBody);
        proof {
            lemma_run_end(before.source, before.pos, Run::StringBody);
            lemma_make_string(before);
        }
        while self.pos < self.chars.len() && self.chars[self.pos] != '"'
            invariant
                self.wf(),
                before.wf(),
                before.pending is None,
                before.pos <= self@.pos <= close <= before.source.len(),
                close == run_end(before.source, self@.pos, Run::StringBody),
                self@ == (Cursor {
                    line: before.line + count_newlines(before.source, before.pos, self@.pos),
                    ..before.advance_to(self@.pos)
                }),
            decreases self.chars.len() - self.pos,
        {
            proof {
                lemma_count_newlines_bounds(before.source, before.pos, self@.pos);
                lemma_byte_offset_grows(before.source, 0, before.source.len() as int);
                lemma_run_end(before.source, self@.pos + 1, Run::StringBody);
            }
            let c = self.advance();
            if c == Some('\n') {
                self.line = self.line + 1;
            }
        }
        if self.is_at_end() {
            return self.error_token("Unterminated string.");
        }
        let _ = self.advance();
        self.make_token(TokenType::STRING)
    }

    /// Scans the rest of a number literal, its first digit read; see
    /// [`Cursor::make_number`].
    pub fn make_number(&mut self) -> (token: Token<'static>)
        requires
            old(self).wf(),
            old(self)@.pending is None,
        ensures
            final(self).wf(),
            (final(self)@, token) == old(self)@.make_number(),
    {
        proof {
            lemma_make_number(self@);
        }
        self.advance_run(Run::Digits);
        if self.peek() == Some('.') {
            let at = self.offset;
            self.read();
            match self.peek() {
                Some(c) if is_digit(c) => {
                    self.advance_run(Run::Digits);
                },
                _ => {
                    self.ate_char = Some((at, '.'));
                },
            }
        }
        self.make_token(TokenType::NUMBER)
    }

    /// Scans the rest of an identifier or keyword, its first character
    /// `first_char` read; see [`Cursor::make_identifier`].
    pub fn make_identifier(&mut self, first_char: char) -> (token: Token<'static>)
        requires
            old(self).wf(),
            old(self)@.pending is None,
        ensures
            final(self).wf(),
            (final(self)@, token) == old(self)@.make_identifier(first_char),
    {
        let ghost before = self@;
        proof {
            lemma_run_end(before.source, before.pos, Run::Word);
            lemma_make_identifier(before, first_char);
        }
        let mut ident: Vec<char> = Vec::new();
        ident.push(first_char);
        while self.pos < self.chars.len() && is_identifier_part(self.chars[self.pos])
            invariant
                self.wf(),
                before.wf(),
                before.pending is None,
                before.pos <= self@.pos <= before.source.len(),
                self@ == before.advance_to(self@.pos),
                run_end(before.source, self@.pos, Run::Word) == run_end(
                    before.source,
                    before.pos,
                    Run::Word,
                ),
                ident@ == seq![first_char] + before.source.subrange(before.pos, self@.pos),
            decreases self.chars.len() - self.pos,
        {
            let c = self.chars[self.pos];
            let _ = self.advance();
            ident.push(c);
            assert(ident@ =~= seq![first_char] + before.source.subrange(before.pos, self@.pos));
        }
        let kind = self.find_identifier_type(ident.as_slice());
        self.make_token(kind)
    }

    /// The kind of the word `ident`: that of a keyword where the whole word
    /// is one, else `IDENTIFIER`.
    pub fn find_identifier_type(&self, ident: &[char]) -> (kind: TokenType<'static>)
        requires
            ident@.len() > 0,
        ensures
            kind == word_kind(ident@),
    {
        let first = ident[0];
        let rest = vstd::slice::slice_subrange(ident, 1, ident.len());
        proof {
            assert(rest@ =~= ident@.subrange(1, ident@.len() as int));
            lemma_word_by_letters(ident@);
        }
        match first {
            'a' => self.check_keyword(rest, "nd", TokenType::AND),
            'c' => self.check_keyword(rest, "lass", TokenType::CLASS),
            'e' => self.check_keyword(rest, "lse", TokenType::ELSE),
            'i' => self.check_keyword(rest, "f", TokenType::IF),
            'n' => self.check_keyword(rest, "il", TokenType::NIL),
            'o' => self.check_keyword(rest, "r", TokenType::OR),
            'p' => self.check_keyword(rest, "rint", TokenType::PRINT),
            'r' => self.check_keyword(rest, "eturn", TokenType::RETURN),
            's' => self.check_keyword(rest, "uper", TokenType::SUPER),
            'v' => self.check_keyword(rest, "ar", TokenType::VAR),
            'w' => self.check_keyword(rest, "hile", TokenType::WHILE),
            'f' if rest.len() > 0 => {
                let second = rest[0];
                let rest = vstd::slice::slice_subrange(rest, 1, rest.len());
                assert(rest@ =~= ident@.subrange(2, ident@.len() as int));
                match second {
                    'a' => self.check_keyword(rest, "lse", TokenType::FALSE),
                    'o' => self.check_keyword(rest, "r", TokenType::FOR),
                    'u' => self.check_keyword(rest, "n", TokenType::FUN),
                    _ => TokenType::IDENTIFIER,
                }
            },
            't' if rest.len() > 0 => {
                let second = rest[0];
                let rest = vstd::slice::slice_subrange(rest, 1, rest.len());
                assert(rest@ =~= ident@.subrange(2, ident@.len() as int));
                match second {
                    'h' => self.check_keyword(rest, "is", TokenType::THIS),
                    'r' => self.check_keyword(rest, "ue", TokenType::TRUE),
                    _ => TokenType::IDENTIFIER,
                }
            },
            _ => TokenType::IDENTIFIER,
        }
    }

    /// The token of kind `two` if `=` comes next, which is then read, else
    /// that of kind `one`.
    fn one_or_two(&mut self, one: TokenType<'static>, two: TokenType<'static>) -> (token: Token<
        'static,
    >)
        requires
            old(self).wf(),
            old(self)@.pending is None,
        ensures
            final(self).wf(),
            (final(self)@, token) == old(self)@.one_or_two(one, two),
    {
        if self.match_next('=') {
            self.make_token(two)
        } else {
            self.make_token(one)
        }
    }

    /// Scans the next token; see [`Cursor::scan_token`].
    pub fn scan_token(&mut self) -> (token: Token<'static>)
        requires
            old(self).wf(),
        ensures
            final(self).wf(),
            (final(self)@, token) == old(self)@.scan_token(),
    {
        proof {
            lemma_scan_token(self@);
            lemma_skip_whitespace(self@);
        }
        self.skip_whitespace();
        self.start_char = self.next_char;
        let c = match self.ate_char {
            Some((at, c)) => {
                proof {
                    lemma_byte_offset_grows(self.chars@, self.pos - 1, self.pos as int);
                    lemma_byte_offset_grows(self.chars@, self.pos as int, self.chars@.len() as int);
                }
                self.next_char = at + 1;
                self.ate_char = None;
                c
            },
            None => match self.advance() {
                Some(c) => c,
                None => {
                    return self.make_token(TokenType::EOF);
                },
            },
        };
        match c {
            '(' => self.make_token(TokenType::LEFT_PAREN),
            ')' => self.make_token(TokenType::RIGHT_PAREN),
            '{' => self.make_token(TokenType::LEFT_BRACE),
            '}' => self.make_token(TokenType::RIGHT_BRACE),
            ';' => self.make_token(TokenType::SEMICOLON),
            ',' => self.make_token(TokenType::COMMA),
            '.' => self.make_token(TokenType::DOT),
            '-' => self.make_token(TokenType::MINUS),
            '+' => self.make_token(TokenType::PLUS),
            '/' => self.make_token(TokenType::SLASH),
            '*' => self.make_token(TokenType::STAR),
            '!' => self.one_or_two(TokenType::BANG, TokenType::BANG_EQUAL),
            '=' => self.one_or_two(TokenType::EQUAL, TokenType::EQUAL_EQUAL),
            '<' => self.one_or_two(TokenType::LESS, TokenType::LESS_EQUAL),
            '>' => self.one_or_two(TokenType::GREATER, TokenType::GREATER_EQUAL),
            '"' => self.make_string(),
            '0'..='9' => self.make_number(),
            'a'..='z' | 'A'..='Z' | '_' => self.make_identifier(c),
            _ => self.error_token("Unexpected character."),
        }
    }

    /// `token_type` where `rest` is exactly `expected_finish`, else
    /// `IDENTIFIER`.
    pub fn check_keyword<'b>(
        &self,
        rest: &[char],
        expected_finish: &str,
        token_type: TokenType<'b>,
    ) -> (kind: TokenType<'b>)
        ensures
            kind == if rest@ == expected_finish@ {
                token_type
            } else {
                TokenType::IDENTIFIER
            },
    {
        let n = expected_finish.unicode_len();
        if rest.len() != n {
            return TokenType::IDENTIFIER;
        }
        let mut i: usize = 0;
        while i < n
            invariant
                i <= n,
                n == rest@.len(),
                n == expected_finish@.len(),
                forall|j: int| 0 <= j < i ==> rest@[j] == expected_finish@[j],
            decreases n - i,
        {
            if rest[i] != expected_finish.get_char(i) {
                return TokenType::IDENTIFIER;
            }
            i = i + 1;
        }
        assert(rest@ =~= expected_finish@);
        token_type
    }
}

/// The kind that a word has where its first letter, or its first two, are
/// those of a keyword: that of the keyword if the rest of the word is the
/// rest of the keyword.
spec fn kind_by_letters(text: Seq<char>) -> TokenType<'static> {
    let rest = text.subrange(1, text.len() as int);
    let last = text.subrange(2, text.len() as int);
    if text[0] == 'a' {
        if rest == "nd"@ { TokenType::AND } else { TokenType::IDENTIFIER }
    } else if text[0] == 'c' {
        if rest == "lass"@ { TokenType::CLASS } else { TokenType::IDENTIFIER }
    } else if text[0] == 'e' {
        if rest == "lse"@ { TokenType::ELSE } else { TokenType::IDENTIFIER }
    } else if text[0] == 'i' {
        if rest == "f"@ { TokenType::IF } else { TokenType::IDENTIFIER }
    } else if text[0] == 'n' {
        if rest == "il"@ { TokenType::NIL } else { TokenType::IDENTIFIER }
    } else if text[0] == 'o' {
        if rest == "r"@ { TokenType::OR } else { TokenType::IDENTIFIER }
    } else if text[0] == 'p' {
        if rest == "rint"@ { TokenType::PRINT } else { TokenType::IDENTIFIER }
    } else if text[0] == 'r' {
        if rest == "eturn"@ { TokenType::RETURN } else { TokenType::IDENTIFIER }
    } else if text[0] == 's' {
        if rest == "uper"@ { TokenType::SUPER } else { TokenType::IDENTIFIER }
    } else if text[0] == 'v' {
        if rest == "ar"@ { TokenType::VAR } else { TokenType::IDENTIFIER }
    } else if text[0] == 'w' {
        if rest == "hile"@ { TokenType::WHILE } else { TokenType::IDENTIFIER }
    } else if text[0] == 'f' && text.len() > 1 {
        if text[1] == 'a' {
            if last == "lse"@ { TokenType::FALSE } else { TokenType::IDENTIFIER }
        } else if text[1] == 'o' {
            if last == "r"@ { TokenType::FOR } else { TokenType::IDENTIFIER }
        } else if text[1] == 'u' {
            if last == "n"@ { TokenType::FUN } else { TokenType::IDENTIFIER }
        } else {
            TokenType::IDENTIFIER
        }
    } else if text[0] == 't' && text.len() > 1 {
        if text[1] == 'h' {
            if last == "is"@ { TokenType::THIS } else { TokenType::IDENTIFIER }
        } else if text[1] == 'r' {
            if last == "ue"@ { TokenType::TRUE } else { TokenType::IDENTIFIER }
        } else {
            TokenType::IDENTIFIER
        }
    } else {
        TokenType::IDENTIFIER
    }
}

/// A word is `keyword` exactly if it has the first letter of the keyword
/// and goes on as the keyword does.
proof fn lemma_keyword_one(text: Seq<char>, keyword: Seq<char>, suffix: Seq<char>)
    requires
        text.len() > 0,
        keyword.len() > 0,
        suffix == keyword.subrange(1, keyword.len() as int),
    ensures
        text == keyword <==> text[0] == keyword[0] && text.subrange(1, text.len() as int)
            == suffix,
{
    let rest = text.subrange(1, text.len() as int);
    if text[0] == keyword[0] && rest == suffix {
        assert(rest.len() == text.len() - 1);
        assert(suffix.len() == keyword.len() - 1);
        assert forall|i: int| 0 <= i < text.len() implies text[i] == keyword[i] by {
            if i > 0 {
                assert(text[i] == rest[i - 1]);
                assert(keyword[i] == suffix[i - 1]);
            }
        }
        assert(text =~= keyword);
    }
}

/// A word is `keyword` exactly if it has the first two letters of the
/// keyword and goes on as the keyword does.
proof fn lemma_keyword_two(text: Seq<char>, keyword: Seq<char>, suffix: Seq<char>)
    requires
        text.len() > 0,
        keyword.len() > 1,
        suffix == keyword.subrange(2, keyword.len() as int),
    ensures
        text == keyword <==> text.len() > 1 && text[0] == keyword[0] && text[1] == keyword[1]
            && text.subrange(2, text.len() as int) == suffix,
{
    if text.len() > 1 && text[0] == keyword[0] && text[1] == keyword[1] && text.subrange(
        2,
        text.len() as int,
    ) == suffix {
        let rest = text.subrange(2, text.len() as int);
        assert(rest.len() == text.len() - 2);
        assert(suffix.len() == keyword.len() - 2);
        assert forall|i: int| 0 <= i < text.len() implies text[i] == keyword[i] by {
            if i > 1 {
                assert(text[i] == rest[i - 2]);
                assert(keyword[i] == suffix[i - 2]);
            }
        }
        assert(text =~= keyword);
    }
}

/// Telling the keywords apart by their first letters decides the kind of a
/// word.
proof fn lemma_word_by_letters(text: Seq<char>)
    requires
        text.len() > 0,
    ensures
        word_kind(text) == kind_by_letters(text),
{
    lemma_keyword_texts();
    lemma_suffix_texts();
    assert("and"@.subrange(1, 3) =~= "nd"@);
    lemma_keyword_one(text, "and"@, "nd"@);
    assert("class"@.subrange(1, 5) =~= "lass"@);
    lemma_keyword_one(text, "class"@, "lass"@);
    assert("else"@.subrange(1, 4) =~= "lse"@);
    lemma_keyword_one(text, "else"@, "lse"@);
    assert("false"@.subrange(2, 5) =~= "lse"@);
    lemma_keyword_two(text, "false"@, "lse"@);
    assert("for"@.subrange(2, 3) =~= "r"@);
    lemma_keyword_two(text, "for"@, "r"@);
    assert("fun"@.subrange(2, 3) =~= "n"@);
    lemma_keyword_two(text, "fun"@, "n"@);
    assert("if"@.subrange(1, 2) =~= "f"@);
    lemma_keyword_one(text, "if"@, "f"@);
    assert("nil"@.subrange(1, 3) =~= "il"@);
    lemma_keyword_one(text, "nil"@, "il"@);
    assert("or"@.subrange(1, 2) =~= "r"@);
    lemma_keyword_one(text, "or"@, "r"@);
    assert("print"@.subrange(1, 5) =~= "rint"@);
    lemma_keyword_one(text, "print"@, "rint"@);
    assert("return"@.subrange(1, 6) =~= "eturn"@);
    lemma_keyword_one(text, "return"@, "eturn"@);
    assert("super"@.subrange(1, 5) =~= "uper"@);
    lemma_keyword_one(text, "super"@, "uper"@);
    assert("this"@.subrange(2, 4) =~= "is"@);
    lemma_keyword_two(text, "this"@, "is"@);
    assert("true"@.subrange(2, 4) =~= "ue"@);
    lemma_keyword_two(text, "true"@, "ue"@);
    assert("var"@.subrange(1, 3) =~= "ar"@);
    lemma_keyword_one(text, "var"@, "ar"@);
    assert("while"@.subrange(1, 5) =~= "hile"@);
    lemma_keyword_one(text, "while"@, "hile"@);
}

/// The characters of what follows the first letter, or the first two, of
/// each keyword.
proof fn lemma_suffix_texts()
    ensures
        "nd"@ == seq!['n', 'd'],
        "lass"@ == seq!['l', 'a', 's', 's'],
        "lse"@ == seq!['l', 's', 'e'],
        "f"@ == seq!['f'],
        "il"@ == seq!['i', 'l'],
        "r"@ == seq!['r'],
        "rint"@ == seq!['r', 'i', 'n', 't'],
        "eturn"@ == seq!['e', 't', 'u', 'r', 'n'],
        "uper"@ == seq!['u', 'p', 'e', 'r'],
        "ar"@ == seq!['a', 'r'],
        "hile"@ == seq!['h', 'i', 'l', 'e'],
        "n"@ == seq!['n'],
        "is"@ == seq!['i', 's'],
        "ue"@ == seq!['u', 'e'],
{
    reveal_strlit("nd");
    reveal_strlit("lass");
    reveal_strlit("lse");
    reveal_strlit("f");
    reveal_strlit("il");
    reveal_strlit("r");
    reveal_strlit("rint");
    reveal_strlit("eturn");
    reveal_strlit("uper");
    reveal_strlit("ar");
    reveal_strlit("hile");
    reveal_strlit("n");
    reveal_strlit("is");
    reveal_strlit("ue");
    assert("nd"@ =~= seq!['n', 'd']);
    assert("lass"@ =~= seq!['l', 'a', 's', 's']);
    assert("lse"@ =~= seq!['l', 's', 'e']);
    assert("f"@ =~= seq!['f']);
    assert("il"@ =~= seq!['i', 'l']);
    assert("r"@ =~= seq!['r']);
    assert("rint"@ =~= seq!['r', 'i', 'n', 't']);
    assert("eturn"@ =~= seq!['e', 't', 'u', 'r', 'n']);
    assert("uper"@ =~= seq!['u', 'p', 'e', 'r']);
    assert("ar"@ =~= seq!['a', 'r']);
    assert("hile"@ =~= seq!['h', 'i', 'l', 'e']);
    assert("n"@ =~= seq!['n']);
    assert("is"@ =~= seq!['i', 's']);
    assert("ue"@ =~= seq!['u', 'e']);
}

} // verus!
