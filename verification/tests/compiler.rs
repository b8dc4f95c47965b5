use loxuriou::compiler::{compile, interpret, TokenLine};
use loxuriou::source::fits;
use loxuriou::token::{Token, TokenType};
use loxuriou::vm::InterpretResult;

fn line(line: Option<usize>, token_type: TokenType<'static>, start: usize, length: usize, on: usize) -> TokenLine<'static> {
    TokenLine { line, token: Token { token_type, start, length, line: on } }
}

#[test]
fn compile_lists_the_tokens() {
    assert_eq!(
        compile("print 1;\n// done\nx"),
        vec![
            line(Some(1), TokenType::PRINT, 0, 5, 1),
            line(None, TokenType::NUMBER, 5, 2, 1),
            line(None, TokenType::SEMICOLON, 7, 1, 1),
            line(Some(3), TokenType::IDENTIFIER, 8, 10, 3),
            line(None, TokenType::EOF, 18, 0, 3),
        ]
    );
}

#[test]
fn compile_of_nothing_is_eof() {
    assert_eq!(compile(""), vec![line(Some(1), TokenType::EOF, 0, 0, 1)]);
}

#[test]
fn compile_goes_on_after_an_error() {
    let listing = compile("#\n\"a");
    assert_eq!(
        listing,
        vec![
            line(Some(1), TokenType::ERROR("Unexpected character."), 0, 1, 1),
            line(Some(2), TokenType::ERROR("Unterminated string."), 1, 3, 2),
            line(None, TokenType::EOF, 4, 0, 2),
        ]
    );
}

#[test]
fn compile_ends_with_the_only_eof() {
    for source in ["", " ", "a.b(c)", "1.", "/ / //", "\"x\ny\"", "!====", "\n\n\n"] {
        let listing = compile(source);
        let last = listing.len() - 1;
        for (index, line) in listing.iter().enumerate() {
            assert_eq!(line.token.token_type == TokenType::EOF, index == last, "{:?}", source);
        }
    }
}

#[test]
fn interpret_succeeds() {
    let source = "hello class 1 3\n1.2 *\n// comment\ntrue = >= > 250123 var3 or";
    let (result, listing) = interpret(source);
    assert_eq!(result, InterpretResult::Success);
    assert_eq!(listing, compile(source));
    assert_eq!(listing.len(), 14);
    let shown: Vec<Option<usize>> = listing.iter().map(|line| line.line).collect();
    assert_eq!(
        shown,
        vec![
            Some(1), None, None, None, Some(2), None, Some(4), None, None, None, None, None,
            None, None
        ]
    );
}

#[test]
fn interpret_succeeds_on_errors_too() {
    assert_eq!(interpret("@").0, InterpretResult::Success);
}

#[test]
fn sources_fit() {
    assert!(fits(""));
    assert!(fits("a source of ordinary length \u{1F600}"));
}
