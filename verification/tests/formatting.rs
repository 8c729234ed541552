use lox::diagnostics::{format_report, u64_to_dec};
use lox::scanner::Scanner;
use lox::token::{Token, TokenKind};

#[test]
fn decimal_rendering_of_small_and_large_numbers() {
    assert_eq!(u64_to_dec(0), "0");
    assert_eq!(u64_to_dec(7), "7");
    assert_eq!(u64_to_dec(10), "10");
    assert_eq!(u64_to_dec(9070), "9070");
    assert_eq!(u64_to_dec(u64::MAX), "18446744073709551615");
}

#[test]
fn diagnostic_lines_carry_line_number_and_message_verbatim() {
    assert_eq!(format_report(12, "", "msg"), "[line 12] Error: msg");
    assert_eq!(
        format_report(1, " at end", "Expect ')'."),
        "[line 1] Error at end: Expect ')'.",
    );
}

#[test]
fn token_report_is_tag_then_lexeme() {
    let t = Token::new(TokenKind::LParen, String::from("("), 1);
    assert_eq!(t.describe(), "LParen (");
    let t = Token::new(TokenKind::Number(String::from("123.45")), String::from("123.45"), 3);
    assert_eq!(t.describe(), "Number 123.45");
    let t = Token::new(TokenKind::Eof, String::new(), 9);
    assert_eq!(t.describe(), "Eof ");
}

#[test]
fn token_report_over_a_whole_scan() {
    let mut scanner = Scanner::new("print \"ok\";");
    let tokens = scanner.scan_tokens();
    let lines: Vec<String> = tokens.iter().map(|t| t.describe()).collect();
    assert_eq!(lines, ["Print print", "Str \"ok\"", "Semicolon ;", "Eof "]);
}
