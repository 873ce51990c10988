use clox::scanner::Scanner;
use clox::scanner::TokenType;

#[test]
fn scan_one_plus_two_tokens() {
    let mut scanner = Scanner::new("1 + 2");
    let t1 = scanner.scan_token();
    assert_eq!(t1.t_type, TokenType::Number);
    assert_eq!(t1.token, "1");
    assert_eq!(t1.line, 1);
    let t2 = scanner.scan_token();
    assert_eq!(t2.t_type, TokenType::Plus);
    assert_eq!(t2.token, "+");
    assert_eq!(t2.line, 1);
    let t3 = scanner.scan_token();
    assert_eq!(t3.t_type, TokenType::Number);
    assert_eq!(t3.token, "2");
    assert_eq!(t3.line, 1);
    let t4 = scanner.scan_token();
    assert_eq!(t4.t_type, TokenType::Eof);
    assert_eq!(t4.line, 1);
}

#[test]
fn scan_two_character_operators() {
    let mut scanner = Scanner::new("!= == <= >= < > ! =");
    let expected = [
        TokenType::BangEqual,
        TokenType::EqualEqual,
        TokenType::LessEqual,
        TokenType::GreaterEqual,
        TokenType::Less,
        TokenType::Greater,
        TokenType::Bang,
        TokenType::Equal,
        TokenType::Eof,
    ];
    for kind in expected {
        let t = scanner.scan_token();
        assert_eq!(t.t_type, kind);
    }
}

#[test]
fn scan_keywords_and_identifiers() {
    let mut scanner = Scanner::new("var fortune for true this x_1");
    let expected = [
        (TokenType::Var, "var"),
        (TokenType::Identifier, "fortune"),
        (TokenType::For, "for"),
        (TokenType::True, "true"),
        (TokenType::This, "this"),
        (TokenType::Identifier, "x_1"),
    ];
    for (kind, text) in expected {
        let t = scanner.scan_token();
        assert_eq!(t.t_type, kind);
        assert_eq!(t.token, text);
    }
}

#[test]
fn scan_skips_comments_and_counts_lines() {
    let mut scanner = Scanner::new("1 // a comment\n+ 2");
    let t1 = scanner.scan_token();
    assert_eq!(t1.t_type, TokenType::Number);
    assert_eq!(t1.line, 1);
    let t2 = scanner.scan_token();
    assert_eq!(t2.t_type, TokenType::Plus);
    assert_eq!(t2.line, 2);
    let t3 = scanner.scan_token();
    assert_eq!(t3.t_type, TokenType::Number);
    assert_eq!(t3.token, "2");
    assert_eq!(t3.line, 2);
}

#[test]
fn scan_string_spans_lines() {
    let mut scanner = Scanner::new("\"a\nb\" 1");
    let t1 = scanner.scan_token();
    assert_eq!(t1.t_type, TokenType::String);
    assert_eq!(t1.token, "\"a\nb\"");
    assert_eq!(t1.line, 2);
    let t2 = scanner.scan_token();
    assert_eq!(t2.t_type, TokenType::Number);
    assert_eq!(t2.line, 2);
}

#[test]
fn scan_unterminated_string_is_error_token() {
    let mut scanner = Scanner::new("\"abc");
    let t = scanner.scan_token();
    assert_eq!(t.t_type, TokenType::Error);
    assert_eq!(t.token, "Unterminated string.");
}

#[test]
fn scan_unexpected_character_is_error_token() {
    let mut scanner = Scanner::new("@");
    let t = scanner.scan_token();
    assert_eq!(t.t_type, TokenType::Error);
    assert_eq!(t.token, "Unexpected character.");
}

#[test]
fn scan_fractional_number_lexeme() {
    let mut scanner = Scanner::new("12.75.");
    let t = scanner.scan_token();
    assert_eq!(t.t_type, TokenType::Number);
    assert_eq!(t.token, "12.75");
    let dot = scanner.scan_token();
    assert_eq!(dot.t_type, TokenType::Dot);
}
