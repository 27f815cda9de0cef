use lox::scanner::{scan, scan_chars, ScanningError};
use lox::text::SmartString;
use lox::token::Token;

/// The tokens that a source scans to.
fn tokens(source: &str) -> Vec<Token> {
    scan(source).unwrap().into_iter().map(|t| t.type_).collect()
}

/// Whether a token is a number of the given value.
fn is_number(token: &Token, value: f64) -> bool {
    match token {
        Token::NUMBER(lexeme) => lexeme.as_str().parse::<f64>().unwrap() == value,
        _ => false,
    }
}

#[test]
fn scan_equation() {
    let scanned = tokens("1+1");
    assert_eq!(scanned.len(), 3);
    assert!(is_number(&scanned[0], 1.0));
    assert_eq!(scanned[1], Token::PLUS);
    assert!(is_number(&scanned[2], 1.0));
}

#[test]
fn scan_identifier() {
    assert_eq!(tokens("woaw")[0], Token::IDENTIFIER(SmartString::from("woaw")));
}

#[test]
fn scan_quotes() {
    let scanned = tokens("\"hiiii\"");
    assert_eq!(scanned, vec![Token::STRING(SmartString::from("hiiii"))]);
}

#[test]
fn scan_empty() {
    assert_eq!(tokens("\"\"")[0], Token::STRING(SmartString::new()));
}

#[test]
fn skip_whitespace() {
    assert!(scan("\t \n\n \t \r").is_ok_and(|x| x.is_empty()))
}

#[test]
fn scan_parens() {
    assert_eq!(
        tokens("({<>)}"),
        vec![
            Token::LEFTPAREN,
            Token::LEFTBRACE,
            Token::LESS,
            Token::GREATER,
            Token::RIGHTPAREN,
            Token::RIGHTBRACE
        ]
    );
}

#[test]
fn scan_integer() {
    assert!(is_number(&tokens("123456")[0], 123456.0));
}

#[test]
fn scan_decimal() {
    assert!(is_number(&tokens("123456.123456")[0], 123456.123456));
}

#[test]
fn scan_paren_equation() {
    let scanned = tokens("(1+1)");
    assert_eq!(scanned.len(), 5);
    assert_eq!(scanned[0], Token::LEFTPAREN);
    assert!(is_number(&scanned[1], 1.0));
    assert_eq!(scanned[2], Token::PLUS);
    assert!(is_number(&scanned[3], 1.0));
    assert_eq!(scanned[4], Token::RIGHTPAREN);
}

#[test]
fn ignore_comments() {
    let scanned = tokens("// this is a comment should be ignored \n 123");
    assert_eq!(scanned.len(), 1);
    assert!(is_number(&scanned[0], 123.0));
}

#[test]
fn identifier() {
    assert_eq!(tokens("ababa")[0], Token::IDENTIFIER(SmartString::from("ababa")));
}

#[test]
fn comparison() {
    assert_eq!(tokens("<")[0], Token::LESS);
}

#[test]
fn comparison_equal() {
    assert_eq!(tokens("<=")[0], Token::LESSEQUAL);
}

#[test]
fn unterm_string() {
    assert!(scan("\"unterminated moment").is_err_and(|e| e == ScanningError::UntermString))
}

#[test]
fn unterm_statement() {
    assert_eq!(
        tokens("print \"hello world\";"),
        vec![Token::PRINT, Token::STRING(SmartString::from("hello world")), Token::SEMICOLON]
    );
}

#[test]
fn keywords_and_lines() {
    let scanned = scan("var x = 1;\nwhile (x) x = nil;").unwrap();
    let kinds: Vec<&Token> = scanned.iter().map(|t| &t.type_).collect();
    assert_eq!(kinds[0], &Token::VAR);
    assert_eq!(kinds[1], &Token::IDENTIFIER(SmartString::from("x")));
    assert_eq!(kinds[2], &Token::EQUAL);
    assert_eq!(kinds[5], &Token::WHILE);
    assert_eq!(scanned[0].line, 1);
    assert_eq!(scanned[5].line, 2);
    assert_eq!(kinds[kinds.len() - 2], &Token::NIL);
}

#[test]
fn operator_looks_at_second_character_of_source() {
    // An operator that may take `=` reads the second character of the whole
    // source: `!` alone at the start of `a!` is not followed by `=`.
    let scanned = tokens("!=");
    assert_eq!(scanned[0], Token::BANGEQUAL);
    let scanned = tokens("a ! b");
    assert_eq!(scanned[1], Token::BANG);
}

#[test]
fn unexpected_character_is_reported_with_its_line() {
    let chars: Vec<char> = "1\n@".chars().collect();
    let report = scan_chars(&chars);
    assert_eq!(report.errors.len(), 1);
    assert_eq!(report.errors[0].0, ScanningError::Syntax);
    assert_eq!(report.errors[0].1, 2);
    assert!(!report.cut);
    assert!(scan("1\n@").is_err_and(|e| e == ScanningError::Syntax));
}

#[test]
fn identifiers_continue_with_ascii_letters_only() {
    // Any letter starts an identifier; only ASCII letters continue it.
    let scanned = tokens("été");
    assert_eq!(scanned[0], Token::IDENTIFIER(SmartString::from("ét")));
    assert_eq!(scanned[1], Token::IDENTIFIER(SmartString::from("é")));
    let scanned = tokens("a1");
    assert_eq!(scanned[0], Token::IDENTIFIER(SmartString::from("a")));
    assert!(is_number(&scanned[1], 1.0));
}

#[test]
fn scanning_error_report() {
    assert_eq!(ScanningError::UntermString.report(3, ""), "[line 3] at : Unterminated String");
    assert_eq!(ScanningError::Syntax.message(), "Unexpected Character");
    assert_eq!(ScanningError::FloatParse.error(7), ScanningError::FloatParse);
}
