use lox::diagnostics::Lox;
use lox::token::TokenKind;

#[test]
fn a_clean_run_leaves_the_failure_flag_clear() {
    let mut lox = Lox::default();
    let tokens = lox.run("(1 + 2)");
    assert!(!lox.had_error);
    assert!(lox.messages.is_empty());
    assert_eq!(tokens.len(), 6);
}

#[test]
fn a_run_with_a_lexical_error_sets_the_failure_flag() {
    let mut lox = Lox::default();
    lox.run("@");
    assert!(lox.had_error);
    assert_eq!(lox.messages.len(), 1);
    assert_eq!(lox.messages[0], "[line 1] Error: Unexpected character.");
}

#[test]
fn an_unterminated_string_sets_the_failure_flag() {
    let mut lox = Lox::default();
    let tokens = lox.run("\"abc");
    assert!(lox.had_error);
    assert_eq!(lox.messages.len(), 1);
    assert_eq!(lox.messages[0], "[line 1] Error: Unterminated string.");
    assert_eq!(tokens.len(), 1);
    assert!(matches!(tokens[0].kind, TokenKind::Eof));
}

#[test]
fn the_flag_reset_lets_the_next_submission_run_normally() {
    let mut lox = Lox::default();
    lox.run("@");
    assert!(lox.had_error);
    lox.clear_error();
    assert!(!lox.had_error);
    let tokens = lox.run("(");
    assert!(!lox.had_error);
    assert_eq!(tokens.len(), 2);
    assert!(matches!(tokens[0].kind, TokenKind::LParen));
}

#[test]
fn errors_accumulate_within_one_pass_without_aborting_it() {
    let mut lox = Lox::default();
    let tokens = lox.run("@ # (");
    assert!(lox.had_error);
    assert_eq!(lox.messages.len(), 2);
    assert_eq!(lox.messages[0], "[line 1] Error: Unexpected character.");
    assert_eq!(lox.messages[1], "[line 1] Error: Unexpected character.");
    assert_eq!(tokens.len(), 2);
    assert!(matches!(tokens[0].kind, TokenKind::LParen));
}

#[test]
fn a_failed_run_still_produces_the_full_token_sequence() {
    let mut lox = Lox::default();
    let tokens = lox.run("va@r");
    assert!(lox.had_error);
    assert_eq!(tokens.len(), 3);
    assert!(matches!(tokens[0].kind, TokenKind::Ident));
    assert_eq!(tokens[0].lexeme, "va");
    assert!(matches!(tokens[1].kind, TokenKind::Ident));
    assert_eq!(tokens[1].lexeme, "r");
}

#[test]
fn error_and_report_record_tagged_lines() {
    let mut lox = Lox::default();
    lox.error(7, String::from("boom"));
    assert!(lox.had_error);
    assert_eq!(lox.messages.len(), 1);
    assert_eq!(lox.messages[0], "[line 7] Error: boom");
    lox.report(12, String::from(" at 'x'"), String::from("bad"));
    assert_eq!(lox.messages[1], "[line 12] Error at 'x': bad");
}
