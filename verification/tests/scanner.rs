use loxuriou::scanner::Scanner;
use loxuriou::token::{Token, TokenType};

fn scan_all(source: &str) -> Vec<Token<'static>> {
    let mut scanner = Scanner::new(source);
    let mut tokens = Vec::new();
    loop {
        let token = scanner.scan_token();
        tokens.push(token);
        if token.token_type == TokenType::EOF {
            return tokens;
        }
        assert!(tokens.len() <= source.len() + 1);
    }
}

fn kinds(source: &str) -> Vec<TokenType<'static>> {
    scan_all(source).iter().map(|token| token.token_type).collect()
}

fn token(token_type: TokenType<'static>, start: usize, length: usize, line: usize) -> Token<'static> {
    Token { token_type, start, length, line }
}

#[test]
fn empty_source_is_one_eof() {
    assert_eq!(scan_all(""), vec![token(TokenType::EOF, 0, 0, 1)]);
}

#[test]
fn eof_comes_once_and_last() {
    for source in ["", "a", "1.", "// c", "\"open", "a b\nc // d\n e", "/", "@ #"] {
        let tokens = scan_all(source);
        let eofs = tokens.iter().filter(|t| t.token_type == TokenType::EOF).count();
        assert_eq!(eofs, 1, "{:?}", source);
        assert_eq!(tokens.last().unwrap().token_type, TokenType::EOF);
        assert_eq!(tokens.last().unwrap().length, 0);
    }
}

#[test]
fn scanning_on_after_eof_gives_eof_again() {
    let mut scanner = Scanner::new("a");
    assert_eq!(scanner.scan_token().token_type, TokenType::IDENTIFIER);
    assert_eq!(scanner.scan_token(), token(TokenType::EOF, 1, 0, 1));
    assert_eq!(scanner.scan_token(), token(TokenType::EOF, 1, 0, 1));
}

#[test]
fn bang_equal_is_one_token() {
    assert_eq!(
        scan_all("!="),
        vec![token(TokenType::BANG_EQUAL, 0, 2, 1), token(TokenType::EOF, 2, 0, 1)]
    );
}

#[test]
fn operators_of_one_and_two_characters() {
    assert_eq!(
        kinds("! != = == < <= > >="),
        vec![
            TokenType::BANG,
            TokenType::BANG_EQUAL,
            TokenType::EQUAL,
            TokenType::EQUAL_EQUAL,
            TokenType::LESS,
            TokenType::LESS_EQUAL,
            TokenType::GREATER,
            TokenType::GREATER_EQUAL,
            TokenType::EOF,
        ]
    );
    assert_eq!(
        scan_all("==="),
        vec![
            token(TokenType::EQUAL_EQUAL, 0, 2, 1),
            token(TokenType::EQUAL, 2, 1, 1),
            token(TokenType::EOF, 3, 0, 1),
        ]
    );
}

#[test]
fn punctuation() {
    assert_eq!(
        kinds("(){};,.-+/*"),
        vec![
            TokenType::LEFT_PAREN,
            TokenType::RIGHT_PAREN,
            TokenType::LEFT_BRACE,
            TokenType::RIGHT_BRACE,
            TokenType::SEMICOLON,
            TokenType::COMMA,
            TokenType::DOT,
            TokenType::MINUS,
            TokenType::PLUS,
            TokenType::SLASH,
            TokenType::STAR,
            TokenType::EOF,
        ]
    );
}

#[test]
fn forest_is_an_identifier() {
    assert_eq!(
        scan_all("forest"),
        vec![token(TokenType::IDENTIFIER, 0, 6, 1), token(TokenType::EOF, 6, 0, 1)]
    );
}

#[test]
fn the_sixteen_keywords() {
    assert_eq!(
        kinds(
            "and class else false for fun if nil or print return super this true var while"
        ),
        vec![
            TokenType::AND,
            TokenType::CLASS,
            TokenType::ELSE,
            TokenType::FALSE,
            TokenType::FOR,
            TokenType::FUN,
            TokenType::IF,
            TokenType::NIL,
            TokenType::OR,
            TokenType::PRINT,
            TokenType::RETURN,
            TokenType::SUPER,
            TokenType::THIS,
            TokenType::TRUE,
            TokenType::VAR,
            TokenType::WHILE,
            TokenType::EOF,
        ]
    );
}

#[test]
fn words_that_are_nearly_keywords() {
    for word in [
        "a", "an", "andy", "And", "f", "fo", "fu", "fa", "fals", "falsey", "t", "th", "tr", "thi",
        "thiss", "truer", "i", "iff", "o", "orr", "whil", "whiles", "_", "_if", "if_", "var3",
        "nill", "prin", "returns", "supe", "clas", "els", "fx", "tx",
    ] {
        assert_eq!(kinds(word), vec![TokenType::IDENTIFIER, TokenType::EOF], "{:?}", word);
    }
}

#[test]
fn find_identifier_type_wants_the_whole_word() {
    let scanner = Scanner::new("");
    let chars = |s: &str| s.chars().collect::<Vec<char>>();
    assert_eq!(scanner.find_identifier_type(&chars("for")), TokenType::FOR);
    assert_eq!(scanner.find_identifier_type(&chars("forest")), TokenType::IDENTIFIER);
    assert_eq!(scanner.find_identifier_type(&chars("fo")), TokenType::IDENTIFIER);
    assert_eq!(scanner.find_identifier_type(&chars("f")), TokenType::IDENTIFIER);
    assert_eq!(scanner.find_identifier_type(&chars("t")), TokenType::IDENTIFIER);
    assert_eq!(scanner.find_identifier_type(&chars("this")), TokenType::THIS);
    assert_eq!(scanner.find_identifier_type(&chars("x")), TokenType::IDENTIFIER);
}

#[test]
fn check_keyword_compares_the_whole_rest() {
    let scanner = Scanner::new("");
    let rest = ['n', 'd'];
    assert_eq!(scanner.check_keyword(&rest, "nd", TokenType::AND), TokenType::AND);
    assert_eq!(scanner.check_keyword(&rest[..1], "nd", TokenType::AND), TokenType::IDENTIFIER);
    assert_eq!(scanner.check_keyword(&rest, "n", TokenType::AND), TokenType::IDENTIFIER);
    assert_eq!(scanner.check_keyword(&rest, "nx", TokenType::AND), TokenType::IDENTIFIER);
    assert_eq!(scanner.check_keyword(&[], "", TokenType::OR), TokenType::OR);
    assert_eq!(scanner.check_keyword(&[], "r", TokenType::OR), TokenType::IDENTIFIER);
}

#[test]
fn number_literals_are_one_token() {
    for literal in ["0", "7", "123", "1.5", "250123", "0.0", "12.345", "007.100"] {
        assert_eq!(
            scan_all(literal),
            vec![
                token(TokenType::NUMBER, 0, literal.len(), 1),
                token(TokenType::EOF, literal.len(), 0, 1),
            ],
            "{:?}",
            literal
        );
    }
}

#[test]
fn number_with_trailing_point() {
    assert_eq!(
        scan_all("123."),
        vec![
            token(TokenType::NUMBER, 0, 3, 1),
            token(TokenType::DOT, 3, 1, 1),
            token(TokenType::EOF, 4, 0, 1),
        ]
    );
}

#[test]
fn point_between_number_and_word() {
    assert_eq!(
        scan_all("1.x"),
        vec![
            token(TokenType::NUMBER, 0, 1, 1),
            token(TokenType::DOT, 1, 1, 1),
            token(TokenType::IDENTIFIER, 2, 1, 1),
            token(TokenType::EOF, 3, 0, 1),
        ]
    );
}

#[test]
fn pending_point_comes_before_what_follows() {
    assert_eq!(
        scan_all("1./2"),
        vec![
            token(TokenType::NUMBER, 0, 1, 1),
            token(TokenType::DOT, 1, 1, 1),
            token(TokenType::SLASH, 2, 1, 1),
            token(TokenType::NUMBER, 3, 1, 1),
            token(TokenType::EOF, 4, 0, 1),
        ]
    );
}

#[test]
fn pending_point_keeps_its_line() {
    assert_eq!(
        scan_all("1.\n2"),
        vec![
            token(TokenType::NUMBER, 0, 1, 1),
            token(TokenType::DOT, 1, 1, 1),
            token(TokenType::NUMBER, 2, 2, 2),
            token(TokenType::EOF, 4, 0, 2),
        ]
    );
}

#[test]
fn second_point_ends_a_number() {
    assert_eq!(
        scan_all("1.2.3"),
        vec![
            token(TokenType::NUMBER, 0, 3, 1),
            token(TokenType::DOT, 3, 1, 1),
            token(TokenType::NUMBER, 4, 1, 1),
            token(TokenType::EOF, 5, 0, 1),
        ]
    );
}

#[test]
fn point_before_digits_is_a_dot() {
    assert_eq!(kinds(".5"), vec![TokenType::DOT, TokenType::NUMBER, TokenType::EOF]);
}

#[test]
fn slash_alone_is_a_token() {
    assert_eq!(
        scan_all("/"),
        vec![token(TokenType::SLASH, 0, 1, 1), token(TokenType::EOF, 1, 0, 1)]
    );
    assert_eq!(
        scan_all("a / b"),
        vec![
            token(TokenType::IDENTIFIER, 0, 1, 1),
            token(TokenType::SLASH, 1, 2, 1),
            token(TokenType::IDENTIFIER, 3, 2, 1),
            token(TokenType::EOF, 5, 0, 1),
        ]
    );
}

#[test]
fn two_slashes_apart_are_two_tokens() {
    assert_eq!(
        scan_all("/ /"),
        vec![
            token(TokenType::SLASH, 0, 1, 1),
            token(TokenType::SLASH, 1, 2, 1),
            token(TokenType::EOF, 3, 0, 1),
        ]
    );
}

#[test]
fn comment_yields_no_token() {
    assert_eq!(scan_all("// anything"), vec![token(TokenType::EOF, 0, 0, 1)]);
    assert_eq!(scan_all("//"), vec![token(TokenType::EOF, 0, 0, 1)]);
    assert_eq!(scan_all("// one\n// two\n"), vec![token(TokenType::EOF, 0, 0, 3)]);
}

#[test]
fn scanning_resumes_on_the_line_after_a_comment() {
    assert_eq!(
        scan_all("a // b c 1 \"\nd"),
        vec![
            token(TokenType::IDENTIFIER, 0, 1, 1),
            token(TokenType::IDENTIFIER, 1, 13, 2),
            token(TokenType::EOF, 14, 0, 2),
        ]
    );
}

#[test]
fn comment_is_the_same_as_the_end_of_its_line() {
    let with = scan_all("x // note / more\n+ y");
    let without = scan_all("x               \n+ y");
    let kinds = |tokens: &Vec<Token<'static>>| {
        tokens.iter().map(|t| (t.token_type, t.line)).collect::<Vec<_>>()
    };
    assert_eq!(kinds(&with), kinds(&without));
    assert_eq!(with, without);
}

#[test]
fn slash_then_comment() {
    assert_eq!(
        scan_all("/// x"),
        vec![token(TokenType::EOF, 0, 0, 1)]
    );
    assert_eq!(
        scan_all("/ // x"),
        vec![token(TokenType::SLASH, 0, 1, 1), token(TokenType::EOF, 1, 0, 1)]
    );
}

#[test]
fn string_literal() {
    assert_eq!(
        scan_all("\"hi\""),
        vec![token(TokenType::STRING, 0, 4, 1), token(TokenType::EOF, 4, 0, 1)]
    );
    assert_eq!(
        scan_all("\"\""),
        vec![token(TokenType::STRING, 0, 2, 1), token(TokenType::EOF, 2, 0, 1)]
    );
}

#[test]
fn string_literal_counts_its_lines() {
    assert_eq!(
        scan_all("\"a\nb\n\" x"),
        vec![
            token(TokenType::STRING, 0, 6, 3),
            token(TokenType::IDENTIFIER, 6, 2, 3),
            token(TokenType::EOF, 8, 0, 3),
        ]
    );
}

#[test]
fn unterminated_string_is_an_error_token() {
    assert_eq!(
        scan_all("\"open\nstill"),
        vec![
            token(TokenType::ERROR("Unterminated string."), 0, 11, 2),
            token(TokenType::EOF, 11, 0, 2),
        ]
    );
    assert_eq!(
        scan_all("\""),
        vec![
            token(TokenType::ERROR("Unterminated string."), 0, 1, 1),
            token(TokenType::EOF, 1, 0, 1),
        ]
    );
}

#[test]
fn unexpected_character_is_an_error_token() {
    assert_eq!(
        scan_all("a @ b"),
        vec![
            token(TokenType::IDENTIFIER, 0, 1, 1),
            token(TokenType::ERROR("Unexpected character."), 1, 2, 1),
            token(TokenType::IDENTIFIER, 3, 2, 1),
            token(TokenType::EOF, 5, 0, 1),
        ]
    );
}

#[test]
fn spans_start_where_the_last_one_ended() {
    let source = "var x = 12.5; // set\nprint \"x\" / x != 3.";
    let tokens = scan_all(source);
    assert_eq!(tokens[0].start, 0);
    for pair in tokens.windows(2) {
        assert_eq!(pair[0].start + pair[0].length, pair[1].start);
    }
    assert_eq!(tokens.last().unwrap().start, source.len());
}

#[test]
fn line_feeds_count_lines() {
    assert_eq!(
        scan_all("a\n\n b\r\n\tc"),
        vec![
            token(TokenType::IDENTIFIER, 0, 1, 1),
            token(TokenType::IDENTIFIER, 1, 4, 3),
            token(TokenType::IDENTIFIER, 5, 4, 4),
            token(TokenType::EOF, 9, 0, 4),
        ]
    );
}

#[test]
fn white_space_outside_ascii_is_skipped() {
    // U+00A0 takes two bytes and U+2003 three.
    assert_eq!(
        scan_all("a\u{a0}b\u{2003}c"),
        vec![
            token(TokenType::IDENTIFIER, 0, 1, 1),
            token(TokenType::IDENTIFIER, 1, 3, 1),
            token(TokenType::IDENTIFIER, 4, 4, 1),
            token(TokenType::EOF, 8, 0, 1),
        ]
    );
}

#[test]
fn letters_outside_ascii_continue_an_identifier() {
    // The span ends one byte past the offset of the last character.
    assert_eq!(
        scan_all("caf\u{e9}s x"),
        vec![
            token(TokenType::IDENTIFIER, 0, 6, 1),
            token(TokenType::IDENTIFIER, 6, 2, 1),
            token(TokenType::EOF, 8, 0, 1),
        ]
    );
    assert_eq!(
        scan_all("a\u{e9}"),
        vec![token(TokenType::IDENTIFIER, 0, 2, 1), token(TokenType::EOF, 2, 0, 1)]
    );
}

#[test]
fn letters_outside_ascii_start_no_identifier() {
    assert_eq!(
        scan_all("\u{e9}a"),
        vec![
            token(TokenType::ERROR("Unexpected character."), 0, 1, 1),
            token(TokenType::IDENTIFIER, 1, 2, 1),
            token(TokenType::EOF, 3, 0, 1),
        ]
    );
}

#[test]
fn signs_outside_ascii_are_unexpected() {
    // U+20AC is neither white space nor alphanumeric.
    assert_eq!(
        scan_all("a\u{20ac}"),
        vec![
            token(TokenType::IDENTIFIER, 0, 1, 1),
            token(TokenType::ERROR("Unexpected character."), 1, 1, 1),
            token(TokenType::EOF, 2, 0, 1),
        ]
    );
}

#[test]
fn a_small_program() {
    let source = "hello class 1 3\n1.2 *\n// comment\ntrue = >= > 250123 var3 or";
    assert_eq!(
        scan_all(source),
        vec![
            token(TokenType::IDENTIFIER, 0, 5, 1),
            token(TokenType::CLASS, 5, 6, 1),
            token(TokenType::NUMBER, 11, 2, 1),
            token(TokenType::NUMBER, 13, 2, 1),
            token(TokenType::NUMBER, 15, 4, 2),
            token(TokenType::STAR, 19, 2, 2),
            token(TokenType::TRUE, 21, 16, 4),
            token(TokenType::EQUAL, 37, 2, 4),
            token(TokenType::GREATER_EQUAL, 39, 3, 4),
            token(TokenType::GREATER, 42, 2, 4),
            token(TokenType::NUMBER, 44, 7, 4),
            token(TokenType::IDENTIFIER, 51, 5, 4),
            token(TokenType::OR, 56, 3, 4),
            token(TokenType::EOF, 59, 0, 4),
        ]
    );
}

#[test]
fn scanner_pieces() {
    let mut scanner = Scanner::new("ab=\"c\"12.x");
    assert!(!scanner.is_at_end());
    assert_eq!(scanner.peek(), Some('a'));
    assert_eq!(scanner.advance(), Some('a'));
    assert_eq!(scanner.make_token(TokenType::IDENTIFIER), token(TokenType::IDENTIFIER, 0, 1, 1));
    assert!(!scanner.match_next('='));
    assert_eq!(scanner.advance(), Some('b'));
    assert!(scanner.match_next('='));
    assert_eq!(scanner.make_token(TokenType::EQUAL), token(TokenType::EQUAL, 0, 3, 1));
    assert_eq!(scanner.error_token("bad"), token(TokenType::ERROR("bad"), 0, 3, 1));
    assert_eq!(scanner.advance(), Some('"'));
    assert_eq!(scanner.make_string(), token(TokenType::STRING, 0, 6, 1));
    assert_eq!(scanner.advance(), Some('1'));
    assert_eq!(scanner.make_number(), token(TokenType::NUMBER, 0, 8, 1));
    // The point is pending now: it comes first, and nothing is skipped.
    scanner.skip_whitespace();
    assert_eq!(scanner.scan_token(), token(TokenType::DOT, 8, 1, 1));
    assert_eq!(scanner.advance(), Some('x'));
    assert_eq!(scanner.make_identifier('x'), token(TokenType::IDENTIFIER, 8, 2, 1));
    assert!(scanner.is_at_end());
    assert_eq!(scanner.peek(), None);
    assert_eq!(scanner.advance(), None);
    assert!(!scanner.match_next('x'));
}

#[test]
fn skip_whitespace_hands_back_a_lone_slash() {
    let mut scanner = Scanner::new(" \n / 2");
    scanner.skip_whitespace();
    assert_eq!(scanner.peek(), Some(' '));
    assert_eq!(scanner.scan_token(), token(TokenType::SLASH, 0, 4, 2));
    assert_eq!(scanner.scan_token(), token(TokenType::NUMBER, 4, 2, 2));
}

#[test]
fn make_identifier_takes_the_first_character_as_given() {
    let mut scanner = Scanner::new("or");
    assert_eq!(scanner.make_identifier('f'), token(TokenType::FOR, 0, 2, 1));
}
