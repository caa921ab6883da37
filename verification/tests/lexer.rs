use linalg::lexer::Lexer;
use linalg::parser::numeral::is_written_number;
use linalg::tokens::Token;
use linalg::tokens::TokenType;

fn scan(text: &str) -> Vec<Token> {
    Lexer::new(text.to_string()).scan_tokens()
}

fn kinds(text: &str) -> Vec<TokenType> {
    scan(text).iter().map(|t| t.token_type).collect()
}

fn lexemes(text: &str) -> Vec<String> {
    scan(text).iter().map(|t| t.lexeme.clone()).collect()
}

#[test]
fn empty_text_scans_to_end_of_input_only() {
    let tokens = scan("");
    assert_eq!(tokens.len(), 1);
    assert_eq!(tokens[0].token_type, TokenType::TOKEN_EOF);
    assert_eq!(tokens[0].lexeme, "");
    assert_eq!(tokens[0].line, 1);
}

#[test]
fn new_empty_lexer_holds_no_text() {
    let lexer = Lexer::new_empty();
    assert_eq!(lexer.content, "");
    assert_eq!(lexer.scan_tokens().len(), 1);
}

#[test]
fn every_scan_ends_with_end_of_input() {
    for text in ["", "1", "print x;", "@@@", "let a = [1 2 | 3 4];\n\n", "  \t\r"] {
        let tokens = scan(text);
        let last = tokens.last().unwrap();
        assert_eq!(last.token_type, TokenType::TOKEN_EOF);
        for token in &tokens[..tokens.len() - 1] {
            assert_ne!(token.token_type, TokenType::TOKEN_EOF);
        }
    }
}

#[test]
fn scanning_is_a_function_of_the_text() {
    let text = "let x = [1 2 | 3 4]; print x' ^ 2;";
    let first = scan(text);
    let second = scan(text);
    assert_eq!(first.len(), second.len());
    for (a, b) in first.iter().zip(second.iter()) {
        assert_eq!(a.token_type, b.token_type);
        assert_eq!(a.lexeme, b.lexeme);
        assert_eq!(a.line, b.line);
    }
}

#[test]
fn print_statement_tokens() {
    assert_eq!(
        kinds("print 1 + 2 * 3;"),
        vec![
            TokenType::TOKEN_PRINT,
            TokenType::TOKEN_NUMBER,
            TokenType::TOKEN_PLUS,
            TokenType::TOKEN_NUMBER,
            TokenType::TOKEN_STAR,
            TokenType::TOKEN_NUMBER,
            TokenType::TOKEN_SEMICOLON,
            TokenType::TOKEN_EOF,
        ]
    );
    assert_eq!(
        lexemes("print 1 + 2 * 3;"),
        vec!["print", "1", "+", "2", "*", "3", ";", ""]
    );
}

#[test]
fn numbers_take_digits_on_both_sides_of_one_point() {
    assert_eq!(lexemes("12.5"), vec!["12.5", ""]);
    assert_eq!(lexemes("007"), vec!["007", ""]);
    assert_eq!(lexemes("3."), vec!["3.", ""]);
    assert_eq!(kinds("3."), vec![TokenType::TOKEN_NUMBER, TokenType::TOKEN_EOF]);
}

#[test]
fn a_second_point_ends_the_number() {
    assert_eq!(lexemes("1.2.3"), vec!["1.2", ".", "3", ""]);
    assert_eq!(
        kinds("1.2.3"),
        vec![
            TokenType::TOKEN_NUMBER,
            TokenType::TOKEN_DOT,
            TokenType::TOKEN_NUMBER,
            TokenType::TOKEN_EOF,
        ]
    );
}

#[test]
fn a_point_without_digits_before_it_is_a_dot() {
    assert_eq!(
        kinds(".5"),
        vec![TokenType::TOKEN_DOT, TokenType::TOKEN_NUMBER, TokenType::TOKEN_EOF]
    );
}

#[test]
fn words_are_runs_of_letters_and_digits() {
    assert_eq!(lexemes("abc123 x9y"), vec!["abc123", "x9y", ""]);
    assert_eq!(
        kinds("abc123 x9y"),
        vec![
            TokenType::TOKEN_IDENTIFIER,
            TokenType::TOKEN_IDENTIFIER,
            TokenType::TOKEN_EOF,
        ]
    );
}

#[test]
fn a_digit_starts_a_number_even_before_letters() {
    assert_eq!(lexemes("9lives"), vec!["9", "lives", ""]);
}

#[test]
fn reserved_words_have_their_own_kinds() {
    assert_eq!(
        kinds("let print newline identity ref rref inverse"),
        vec![
            TokenType::TOKEN_LET,
            TokenType::TOKEN_PRINT,
            TokenType::TOKEN_NEWLINE,
            TokenType::TOKEN_IDENTITY,
            TokenType::TOKEN_REF,
            TokenType::TOKEN_RREF,
            TokenType::TOKEN_INVERSE,
            TokenType::TOKEN_EOF,
        ]
    );
}

#[test]
fn a_reserved_word_inside_a_longer_word_is_an_identifier() {
    assert_eq!(
        kinds("letter printer Let refs"),
        vec![
            TokenType::TOKEN_IDENTIFIER,
            TokenType::TOKEN_IDENTIFIER,
            TokenType::TOKEN_IDENTIFIER,
            TokenType::TOKEN_IDENTIFIER,
            TokenType::TOKEN_EOF,
        ]
    );
}

#[test]
fn two_character_operators() {
    assert_eq!(
        kinds("== != <= >="),
        vec![
            TokenType::TOKEN_EQUAL_EQUAL,
            TokenType::TOKEN_BANG_EQUAL,
            TokenType::TOKEN_LESS_EQUAL,
            TokenType::TOKEN_GREATER_EQUAL,
            TokenType::TOKEN_EOF,
        ]
    );
    assert_eq!(lexemes("== != <= >="), vec!["==", "!=", "<=", ">=", ""]);
}

#[test]
fn first_characters_fall_back_to_single_operators() {
    assert_eq!(
        kinds("= ! < >"),
        vec![
            TokenType::TOKEN_EQUAL,
            TokenType::TOKEN_BANG,
            TokenType::TOKEN_LESS,
            TokenType::TOKEN_GREATER,
            TokenType::TOKEN_EOF,
        ]
    );
    assert_eq!(
        kinds("=1"),
        vec![TokenType::TOKEN_EQUAL, TokenType::TOKEN_NUMBER, TokenType::TOKEN_EOF]
    );
}

#[test]
fn an_operator_at_the_very_end_is_single() {
    assert_eq!(kinds("="), vec![TokenType::TOKEN_EQUAL, TokenType::TOKEN_EOF]);
    assert_eq!(kinds("<"), vec![TokenType::TOKEN_LESS, TokenType::TOKEN_EOF]);
    assert_eq!(kinds("!"), vec![TokenType::TOKEN_BANG, TokenType::TOKEN_EOF]);
    assert_eq!(kinds(">"), vec![TokenType::TOKEN_GREATER, TokenType::TOKEN_EOF]);
}

#[test]
fn three_equal_signs_are_a_pair_and_one() {
    assert_eq!(
        kinds("==="),
        vec![
            TokenType::TOKEN_EQUAL_EQUAL,
            TokenType::TOKEN_EQUAL,
            TokenType::TOKEN_EOF,
        ]
    );
}

#[test]
fn single_character_tokens() {
    assert_eq!(
        kinds("+-*/^'(){}[],.;|"),
        vec![
            TokenType::TOKEN_PLUS,
            TokenType::TOKEN_MINUS,
            TokenType::TOKEN_STAR,
            TokenType::TOKEN_SLASH,
            TokenType::TOKEN_CARET,
            TokenType::TOKEN_TRANSPOSE,
            TokenType::TOKEN_LEFT_PAREN,
            TokenType::TOKEN_RIGHT_PAREN,
            TokenType::TOKEN_LEFT_BRACE,
            TokenType::TOKEN_RIGHT_BRACE,
            TokenType::TOKEN_LEFT_BRACKET,
            TokenType::TOKEN_RIGHT_BRACKET,
            TokenType::TOKEN_COMMA,
            TokenType::TOKEN_DOT,
            TokenType::TOKEN_SEMICOLON,
            TokenType::TOKEN_PIPE,
            TokenType::TOKEN_EOF,
        ]
    );
}

#[test]
fn blanks_are_dropped() {
    assert_eq!(kinds(" \t\r1 \t\r"), vec![TokenType::TOKEN_NUMBER, TokenType::TOKEN_EOF]);
}

#[test]
fn newlines_count_lines() {
    let tokens = scan("1\n2\n\n3");
    let lines: Vec<usize> = tokens.iter().map(|t| t.line).collect();
    assert_eq!(lines, vec![1, 2, 4, 4]);
}

#[test]
fn end_of_input_stands_on_the_last_line() {
    let tokens = scan("\n\n\n");
    assert_eq!(tokens.len(), 1);
    assert_eq!(tokens[0].line, 4);
}

#[test]
fn an_unknown_character_gives_an_error_token_and_scanning_goes_on() {
    let tokens = scan("1 @ 2 # 3");
    let kinds: Vec<TokenType> = tokens.iter().map(|t| t.token_type).collect();
    assert_eq!(
        kinds,
        vec![
            TokenType::TOKEN_NUMBER,
            TokenType::TOKEN_ERROR,
            TokenType::TOKEN_NUMBER,
            TokenType::TOKEN_ERROR,
            TokenType::TOKEN_NUMBER,
            TokenType::TOKEN_EOF,
        ]
    );
    assert_eq!(tokens[1].lexeme, "Unknown token: @");
    assert_eq!(tokens[3].lexeme, "Unknown token: #");
}

#[test]
fn characters_outside_ascii_are_unknown() {
    let tokens = scan("é1");
    assert_eq!(tokens.len(), 3);
    assert_eq!(tokens[0].token_type, TokenType::TOKEN_ERROR);
    assert_eq!(tokens[0].lexeme, "Unknown token: é");
    assert_eq!(tokens[1].token_type, TokenType::TOKEN_NUMBER);
    assert_eq!(tokens[1].lexeme, "1");
}

#[test]
fn matrix_literal_tokens() {
    assert_eq!(
        kinds("[1 2 | 3 4]"),
        vec![
            TokenType::TOKEN_LEFT_BRACKET,
            TokenType::TOKEN_NUMBER,
            TokenType::TOKEN_NUMBER,
            TokenType::TOKEN_PIPE,
            TokenType::TOKEN_NUMBER,
            TokenType::TOKEN_NUMBER,
            TokenType::TOKEN_RIGHT_BRACKET,
            TokenType::TOKEN_EOF,
        ]
    );
}

#[test]
fn token_new_keeps_its_parts() {
    let token = Token::new(TokenType::TOKEN_NUMBER, "42".to_string(), 7);
    assert_eq!(token.token_type, TokenType::TOKEN_NUMBER);
    assert_eq!(token.lexeme, "42");
    assert_eq!(token.line, 7);
}

#[test]
fn token_clone_is_equal() {
    let token = Token::new(TokenType::TOKEN_IDENTIFIER, "abc".to_string(), 3);
    let copy = token.clone();
    assert_eq!(copy.token_type, token.token_type);
    assert_eq!(copy.lexeme, token.lexeme);
    assert_eq!(copy.line, token.line);
}

#[test]
fn token_text_shows_kind_lexeme_and_line() {
    let token = Token::new(TokenType::TOKEN_NUMBER, "42".to_string(), 7);
    assert_eq!(token.to_string(), "TOKEN_NUMBER - 42 - 7");
    let end = Token::new(TokenType::TOKEN_EOF, "".to_string(), 120);
    assert_eq!(end.to_string(), "TOKEN_EOF -  - 120");
}

#[test]
fn token_text_names_every_kind_as_debug_does() {
    let all = [
        TokenType::TOKEN_EOF,
        TokenType::TOKEN_ERROR,
        TokenType::TOKEN_NUMBER,
        TokenType::TOKEN_PLUS,
        TokenType::TOKEN_MINUS,
        TokenType::TOKEN_STAR,
        TokenType::TOKEN_SLASH,
        TokenType::TOKEN_CARET,
        TokenType::TOKEN_TRANSPOSE,
        TokenType::TOKEN_LEFT_PAREN,
        TokenType::TOKEN_RIGHT_PAREN,
        TokenType::TOKEN_LEFT_BRACE,
        TokenType::TOKEN_RIGHT_BRACE,
        TokenType::TOKEN_LEFT_BRACKET,
        TokenType::TOKEN_RIGHT_BRACKET,
        TokenType::TOKEN_COMMA,
        TokenType::TOKEN_DOT,
        TokenType::TOKEN_SEMICOLON,
        TokenType::TOKEN_GREATER,
        TokenType::TOKEN_GREATER_EQUAL,
        TokenType::TOKEN_LESS,
        TokenType::TOKEN_LESS_EQUAL,
        TokenType::TOKEN_EQUAL,
        TokenType::TOKEN_EQUAL_EQUAL,
        TokenType::TOKEN_BANG,
        TokenType::TOKEN_BANG_EQUAL,
        TokenType::TOKEN_PIPE,
        TokenType::TOKEN_IDENTIFIER,
        TokenType::TOKEN_PRINT,
        TokenType::TOKEN_NEWLINE,
        TokenType::TOKEN_LET,
        TokenType::TOKEN_IDENTITY,
        TokenType::TOKEN_REF,
        TokenType::TOKEN_RREF,
        TokenType::TOKEN_INVERSE,
    ];
    for kind in all {
        assert_eq!(kind.name(), format!("{:?}", kind));
    }
}

#[test]
fn decimal_text_of_numbers() {
    assert_eq!(linalg::tokens::decimal(0), "0");
    assert_eq!(linalg::tokens::decimal(9), "9");
    assert_eq!(linalg::tokens::decimal(10), "10");
    assert_eq!(linalg::tokens::decimal(1234567890), "1234567890");
    assert_eq!(linalg::tokens::decimal(usize::MAX), usize::MAX.to_string());
}

#[test]
fn every_number_token_holds_a_number_as_it_is_written() {
    for text in ["12.5.7 3. x1 4a", "0.0.0", "1..2", "7", "print 3.14;", "[1 2 | 3.5 4.]", ".5"] {
        for token in scan(text) {
            if token.token_type == TokenType::TOKEN_NUMBER {
                assert!(is_written_number(&token.lexeme), "{:?} in {:?}", token.lexeme, text);
                assert!(token.lexeme.parse::<f64>().is_ok());
            }
        }
    }
    assert_eq!(lexemes("12.5.7 3."), vec!["12.5", ".", "7", "3.", ""]);
}
