use lox::scanner::{ErrorKind, Scanner};
use lox::token::{Token, TokenKind};

fn scan(source: &str) -> Vec<Token> {
    let mut scanner = Scanner::new(source);
    scanner.scan_tokens()
}

fn scan_with_errors(source: &str) -> (Vec<Token>, Vec<lox::scanner::LexError>) {
    let mut scanner = Scanner::new(source);
    let tokens = scanner.scan_tokens();
    (tokens, scanner.errors)
}

#[test]
fn empty_source_yields_only_end_of_input() {
    let tokens = scan("");
    assert_eq!(tokens.len(), 1);
    assert!(matches!(tokens[0].kind, TokenKind::Eof));
    assert_eq!(tokens[0].lexeme, "");
    assert_eq!(tokens[0].line, 1);
}

#[test]
fn every_scan_ends_with_exactly_one_end_of_input() {
    for source in ["", "(", "a b c", "\"abc", "1 + 2 // done", "@#\n%"] {
        let tokens = scan(source);
        assert!(!tokens.is_empty());
        let last = tokens.last().unwrap();
        assert!(matches!(last.kind, TokenKind::Eof));
        assert_eq!(last.lexeme, "");
        for t in &tokens[..tokens.len() - 1] {
            assert!(!matches!(t.kind, TokenKind::Eof));
        }
    }
}

#[test]
fn left_paren_scans_to_lparen_then_end_of_input() {
    let tokens = scan("(");
    assert_eq!(tokens.len(), 2);
    assert!(matches!(tokens[0].kind, TokenKind::LParen));
    assert_eq!(tokens[0].lexeme, "(");
    assert_eq!(tokens[0].line, 1);
    assert!(matches!(tokens[1].kind, TokenKind::Eof));
}

#[test]
fn all_single_character_punctuation() {
    let tokens = scan("(){},.-+;*");
    let expect = [
        "(", ")", "{", "}", ",", ".", "-", "+", ";", "*",
    ];
    assert_eq!(tokens.len(), expect.len() + 1);
    for (t, lex) in tokens.iter().zip(expect.iter()) {
        assert_eq!(&t.lexeme, lex);
    }
    assert!(matches!(tokens[0].kind, TokenKind::LParen));
    assert!(matches!(tokens[1].kind, TokenKind::RParen));
    assert!(matches!(tokens[2].kind, TokenKind::LBrace));
    assert!(matches!(tokens[3].kind, TokenKind::RBrace));
    assert!(matches!(tokens[4].kind, TokenKind::Comma));
    assert!(matches!(tokens[5].kind, TokenKind::Period));
    assert!(matches!(tokens[6].kind, TokenKind::Minus));
    assert!(matches!(tokens[7].kind, TokenKind::Plus));
    assert!(matches!(tokens[8].kind, TokenKind::Semicolon));
    assert!(matches!(tokens[9].kind, TokenKind::Star));
}

#[test]
fn two_character_operators_are_never_decomposed() {
    let tokens = scan("!= == <= >=");
    assert_eq!(tokens.len(), 5);
    assert!(matches!(tokens[0].kind, TokenKind::BangEq));
    assert_eq!(tokens[0].lexeme, "!=");
    assert!(matches!(tokens[1].kind, TokenKind::EqEq));
    assert_eq!(tokens[1].lexeme, "==");
    assert!(matches!(tokens[2].kind, TokenKind::LtEq));
    assert_eq!(tokens[2].lexeme, "<=");
    assert!(matches!(tokens[3].kind, TokenKind::GtEq));
    assert_eq!(tokens[3].lexeme, ">=");
    assert!(matches!(tokens[4].kind, TokenKind::Eof));
}

#[test]
fn single_character_operators_without_equals() {
    let tokens = scan("! = < > /");
    assert_eq!(tokens.len(), 6);
    assert!(matches!(tokens[0].kind, TokenKind::Bang));
    assert!(matches!(tokens[1].kind, TokenKind::Eq));
    assert!(matches!(tokens[2].kind, TokenKind::Lt));
    assert!(matches!(tokens[3].kind, TokenKind::Gt));
    assert!(matches!(tokens[4].kind, TokenKind::Slash));
}

#[test]
fn comment_contributes_no_token_but_line_advances() {
    let tokens = scan("// comment\n(");
    assert_eq!(tokens.len(), 2);
    assert!(matches!(tokens[0].kind, TokenKind::LParen));
    assert_eq!(tokens[0].line, 2);
    assert!(matches!(tokens[1].kind, TokenKind::Eof));
    assert_eq!(tokens[1].line, 2);
}

#[test]
fn comment_at_end_of_input_without_newline() {
    let tokens = scan("//x");
    assert_eq!(tokens.len(), 1);
    assert!(matches!(tokens[0].kind, TokenKind::Eof));
    assert_eq!(tokens[0].line, 1);
}

#[test]
fn whitespace_contributes_no_token() {
    let tokens = scan(" \t\r (");
    assert_eq!(tokens.len(), 2);
    assert!(matches!(tokens[0].kind, TokenKind::LParen));
}

#[test]
fn string_literal_value_is_text_between_quotes() {
    let tokens = scan("\"hi\"");
    assert_eq!(tokens.len(), 2);
    match &tokens[0].kind {
        TokenKind::Str(value) => assert_eq!(value, "hi"),
        other => panic!("expected a string token, got {:?}", other),
    }
    assert_eq!(tokens[0].lexeme, "\"hi\"");
}

#[test]
fn string_literal_tracks_embedded_newlines() {
    let tokens = scan("\"a\nb\" (");
    assert_eq!(tokens.len(), 3);
    match &tokens[0].kind {
        TokenKind::Str(value) => assert_eq!(value, "a\nb"),
        other => panic!("expected a string token, got {:?}", other),
    }
    assert_eq!(tokens[0].line, 2);
    assert_eq!(tokens[1].line, 2);
}

#[test]
fn unterminated_string_yields_no_token_and_one_error() {
    let (tokens, errors) = scan_with_errors("\"abc");
    assert_eq!(tokens.len(), 1);
    assert!(matches!(tokens[0].kind, TokenKind::Eof));
    assert_eq!(errors.len(), 1);
    assert_eq!(errors[0].kind, ErrorKind::UnterminatedString);
    assert_eq!(errors[0].line, 1);
}

#[test]
fn unterminated_string_reports_the_line_it_started_on() {
    let (_, errors) = scan_with_errors("\n\n\"a\nbc");
    assert_eq!(errors.len(), 1);
    assert_eq!(errors[0].kind, ErrorKind::UnterminatedString);
    assert_eq!(errors[0].line, 3);
}

#[test]
fn integer_number_literal() {
    let tokens = scan("123");
    assert_eq!(tokens.len(), 2);
    match &tokens[0].kind {
        TokenKind::Number(text) => {
            assert_eq!(text, "123");
            assert_eq!(text.parse::<f64>().unwrap(), 123.0);
        },
        other => panic!("expected a number token, got {:?}", other),
    }
    assert_eq!(tokens[0].lexeme, "123");
}

#[test]
fn fractional_number_literal() {
    let tokens = scan("123.45");
    assert_eq!(tokens.len(), 2);
    match &tokens[0].kind {
        TokenKind::Number(text) => {
            assert_eq!(text, "123.45");
            assert_eq!(text.parse::<f64>().unwrap(), 123.45);
        },
        other => panic!("expected a number token, got {:?}", other),
    }
}

#[test]
fn trailing_period_is_not_part_of_the_number() {
    let tokens = scan("123.");
    assert_eq!(tokens.len(), 3);
    match &tokens[0].kind {
        TokenKind::Number(text) => {
            assert_eq!(text, "123");
            assert_eq!(text.parse::<f64>().unwrap(), 123.0);
        },
        other => panic!("expected a number token, got {:?}", other),
    }
    assert!(matches!(tokens[1].kind, TokenKind::Period));
    assert_eq!(tokens[1].lexeme, ".");
}

#[test]
fn leading_period_is_not_part_of_a_number() {
    let tokens = scan(".5");
    assert_eq!(tokens.len(), 3);
    assert!(matches!(tokens[0].kind, TokenKind::Period));
    match &tokens[1].kind {
        TokenKind::Number(text) => assert_eq!(text, "5"),
        other => panic!("expected a number token, got {:?}", other),
    }
}

#[test]
fn keyword_lexemes_are_reserved() {
    let tokens = scan("class");
    assert_eq!(tokens.len(), 2);
    assert!(matches!(tokens[0].kind, TokenKind::Class));
    assert_eq!(tokens[0].lexeme, "class");
}

#[test]
fn keyword_prefix_is_still_an_identifier() {
    let tokens = scan("classy");
    assert_eq!(tokens.len(), 2);
    assert!(matches!(tokens[0].kind, TokenKind::Ident));
    assert_eq!(tokens[0].lexeme, "classy");
}

#[test]
fn every_keyword_classifies_as_its_kind() {
    let tokens = scan(
        "and class else false fun for if nil or print return super this true var while",
    );
    assert_eq!(tokens.len(), 17);
    assert!(matches!(tokens[0].kind, TokenKind::And));
    assert!(matches!(tokens[1].kind, TokenKind::Class));
    assert!(matches!(tokens[2].kind, TokenKind::Else));
    assert!(matches!(tokens[3].kind, TokenKind::False));
    assert!(matches!(tokens[4].kind, TokenKind::Funct));
    assert!(matches!(tokens[5].kind, TokenKind::For));
    assert!(matches!(tokens[6].kind, TokenKind::If));
    assert!(matches!(tokens[7].kind, TokenKind::Nil));
    assert!(matches!(tokens[8].kind, TokenKind::Or));
    assert!(matches!(tokens[9].kind, TokenKind::Print));
    assert!(matches!(tokens[10].kind, TokenKind::Return));
    assert!(matches!(tokens[11].kind, TokenKind::Super));
    assert!(matches!(tokens[12].kind, TokenKind::This));
    assert!(matches!(tokens[13].kind, TokenKind::True));
    assert!(matches!(tokens[14].kind, TokenKind::Var));
    assert!(matches!(tokens[15].kind, TokenKind::While));
    assert!(matches!(tokens[16].kind, TokenKind::Eof));
}

#[test]
fn identifiers_may_hold_underscores_and_digits() {
    let tokens = scan("_tmp9 x");
    assert_eq!(tokens.len(), 3);
    assert!(matches!(tokens[0].kind, TokenKind::Ident));
    assert_eq!(tokens[0].lexeme, "_tmp9");
    assert!(matches!(tokens[1].kind, TokenKind::Ident));
    assert_eq!(tokens[1].lexeme, "x");
}

#[test]
fn unexpected_character_is_reported_and_scanning_continues() {
    let (tokens, errors) = scan_with_errors("@(#");
    assert_eq!(tokens.len(), 2);
    assert!(matches!(tokens[0].kind, TokenKind::LParen));
    assert_eq!(errors.len(), 2);
    assert_eq!(errors[0].kind, ErrorKind::UnexpectedChar);
    assert_eq!(errors[0].line, 1);
    assert_eq!(errors[1].kind, ErrorKind::UnexpectedChar);
}

#[test]
fn errors_on_later_lines_carry_their_line_number() {
    let (_, errors) = scan_with_errors("(\n)\n@");
    assert_eq!(errors.len(), 1);
    assert_eq!(errors[0].kind, ErrorKind::UnexpectedChar);
    assert_eq!(errors[0].line, 3);
}

#[test]
fn multi_byte_characters_do_not_split_lexemes() {
    let tokens = scan("\"héllo\"");
    assert_eq!(tokens.len(), 2);
    match &tokens[0].kind {
        TokenKind::Str(value) => assert_eq!(value, "héllo"),
        other => panic!("expected a string token, got {:?}", other),
    }
}

#[test]
fn newlines_advance_the_line_counter() {
    let tokens = scan("\n\n(");
    assert_eq!(tokens.len(), 2);
    assert!(matches!(tokens[0].kind, TokenKind::LParen));
    assert_eq!(tokens[0].line, 3);
}

#[test]
fn mixed_expression_scans_in_source_order() {
    let tokens = scan("var answer = 4.5 + count;");
    let lexemes: Vec<&str> = tokens.iter().map(|t| t.lexeme.as_str()).collect();
    assert_eq!(lexemes, ["var", "answer", "=", "4.5", "+", "count", ";", ""]);
    assert!(matches!(tokens[0].kind, TokenKind::Var));
    assert!(matches!(tokens[1].kind, TokenKind::Ident));
    assert!(matches!(tokens[2].kind, TokenKind::Eq));
    assert!(matches!(tokens[3].kind, TokenKind::Number(_)));
    assert!(matches!(tokens[4].kind, TokenKind::Plus));
    assert!(matches!(tokens[5].kind, TokenKind::Ident));
    assert!(matches!(tokens[6].kind, TokenKind::Semicolon));
    assert!(matches!(tokens[7].kind, TokenKind::Eof));
}
