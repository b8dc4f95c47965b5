//! The front end as far as it goes: it scans a source text to its end and
//! lists the tokens.

use crate::cursor::{lemma_scan_token, lemma_tokens_end_with_eof, Cursor};
use crate::scanner::Scanner;
use crate::source::{byte_len, fits};
use crate::token::{Token, TokenType};
use crate::vm::InterpretResult;
use vstd::prelude::*;

verus! {

/// One line of a token listing: a token with its source line. The line is
/// `None` where the token before it in the listing is on the same line.
#[derive(Debug, Clone, Copy, PartialEq, Eq)]
pub struct TokenLine<'a> {
    pub line: Option<usize>,
    pub token: Token<'a>,
}

/// The line of the listing of `tokens` for the token at `index`.
pub open spec fn token_line(tokens: Seq<Token<'static>>, index: int) -> TokenLine<'static> {
    TokenLine {
        line: if index > 0 && tokens[index].line == tokens[index - 1].line {
            None
        } else {
            Some(tokens[index].line)
        },
        token: tokens[index],
    }
}

/// The listing of `tokens`: one line for each, in order.
pub open spec fn token_listing(tokens: Seq<Token<'static>>) -> Seq<TokenLine<'static>> {
    Seq::new(tokens.len(), |index: int| token_line(tokens, index))
}

/// Scans `source` to its end and lists its tokens: each token that the
/// scanner hands out, in order, up to the `EOF` that ends them.
pub fn compile(source: &str) -> (listing: Vec<TokenLine<'static>>)
    requires
        byte_len(source@) < usize::MAX,
    ensures
        listing@ == token_listing(Cursor::initial(source@).tokens()),
        listing@.len() >= 1,
        listing@.last().token.token_type == TokenType::EOF,
        forall|i: int|
            0 <= i < listing@.len() - 1 ==> (#[trigger] listing@[i]).token.token_type
                != TokenType::EOF,
{
    let mut scanner = Scanner::new(source);
    let mut listing: Vec<TokenLine<'static>> = Vec::new();
    let mut line: Option<usize> = None;
    let ghost all = Cursor::initial(source@).tokens();
    let ghost mut seen: Seq<Token<'static>> = Seq::empty();
    proof {
        lemma_tokens_end_with_eof(Cursor::initial(source@));
    }
    loop
        invariant
            scanner.wf(),
            seen + scanner@.tokens() == all,
            listing@ == token_listing(all).take(seen.len() as int),
            line == if seen.len() > 0 {
                Some(seen.last().line)
            } else {
                None
            },
            all == Cursor::initial(source@).tokens(),
            all.len() >= 1,
            all.last().token_type == TokenType::EOF,
            forall|i: int|
                0 <= i < all.len() - 1 ==> (#[trigger] all[i]).token_type != TokenType::EOF,
        decreases scanner@.remaining(),
    {
        let ghost before = scanner@;
        proof {
            lemma_scan_token(before);
        }
        let token = scanner.scan_token();
        let shown = match line {
            Some(last) if last == token.line => None,
            _ => Some(token.line),
        };
        proof {
            assert(all[seen.len() as int] == token) by {
                assert(all[seen.len() as int] == before.tokens()[0]);
            }
            assert(seen.len() > 0 ==> seen.last() == all[seen.len() - 1]);
            if token.token_type != TokenType::EOF {
                assert(seen.push(token) + scanner@.tokens() =~= seen + before.tokens());
            } else {
                assert(seen.push(token) =~= seen + before.tokens());
            }
            seen = seen.push(token);
        }
        listing.push(TokenLine { line: shown, token });
        line = Some(token.line);
        assert(listing@ =~= token_listing(all).take(seen.len() as int));
        match token.token_type {
            TokenType::EOF => {
                assert(seen =~= all);
                assert(listing@ =~= token_listing(all));
                return listing;
            },
            _ => {},
        }
    }
}

/// Interprets `source`: as far as the front end goes, it scans the source
/// to its end. The result is `Success`, with the listing of the tokens. A
/// source too long to scan, its length in bytes being the largest machine
/// word, is a `CompileError` with an empty listing.
pub fn interpret(source: &str) -> (out: (InterpretResult, Vec<TokenLine<'static>>))
    ensures
        byte_len(source@) < usize::MAX ==> out.0 == InterpretResult::Success && out.1@
            == token_listing(Cursor::initial(source@).tokens()),
        byte_len(source@) >= usize::MAX ==> out.0 == InterpretResult::CompileError
            && out.1@.len() == 0,
{
    if fits(source) {
        (InterpretResult::Success, compile(source))
    } else {
        (InterpretResult::CompileError, Vec::new())
    }
}

} // verus!
