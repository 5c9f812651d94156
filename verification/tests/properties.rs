use clex::lexer;
use clex::lexer::scanner::{ScanErr, Scanner, TOKEN};

fn scan(source: &str) -> Result<Vec<TOKEN>, Vec<ScanErr>> {
    Scanner::new(source).scan_token()
}

#[test]
fn whitespace_only_yields_nothing() {
    assert_eq!(scan(""), Ok(vec![]));
    assert_eq!(scan("   \t \t  "), Ok(vec![]));
    assert_eq!(scan(" \n\t\n  \n"), Ok(vec![]));
}

#[test]
fn one_token_per_spaced_lexeme() {
    let got = scan("int x ( ) { } ; 42 return").expect("clean input");
    assert_eq!(
        got,
        vec![
            TOKEN::Int,
            TOKEN::IDENTIFIER("x".to_string()),
            TOKEN::LeftParen,
            TOKEN::RightParen,
            TOKEN::LeftBrace,
            TOKEN::RightBrace,
            TOKEN::Semicolon,
            TOKEN::CONST(42),
            TOKEN::Return
        ]
    );
}

#[test]
fn scanning_twice_is_identical() {
    let clean = "int main() { return 0; }";
    assert_eq!(scan(clean), scan(clean));
    let dirty = "int %main() { return 1foo }";
    assert_eq!(scan(dirty), scan(dirty));
}

#[test]
fn keywords_yield_keyword_tokens() {
    assert_eq!(scan("int"), Ok(vec![TOKEN::Int]));
    assert_eq!(scan("void"), Ok(vec![TOKEN::Void]));
    assert_eq!(scan("return"), Ok(vec![TOKEN::Return]));
}

#[test]
fn keyword_prefixes_yield_whole_identifiers() {
    assert_eq!(
        scan("integer"),
        Ok(vec![TOKEN::IDENTIFIER("integer".to_string())])
    );
    assert_eq!(
        scan("voidx"),
        Ok(vec![TOKEN::IDENTIFIER("voidx".to_string())])
    );
    assert_eq!(
        scan("returning"),
        Ok(vec![TOKEN::IDENTIFIER("returning".to_string())])
    );
    assert_eq!(
        scan("_foo_Bar"),
        Ok(vec![TOKEN::IDENTIFIER("_foo_Bar".to_string())])
    );
}

#[test]
fn digit_run_into_letters_is_one_invalid_number() {
    assert_eq!(
        scan("123abc"),
        Err(vec![ScanErr {
            line: 1,
            message: "Invalid number".to_string()
        }])
    );
    assert_eq!(
        scan("1foo"),
        Err(vec![ScanErr {
            line: 1,
            message: "Invalid number".to_string()
        }])
    );
}

#[test]
fn unexpected_character_reports_its_line() {
    assert_eq!(
        scan("\n\n%"),
        Err(vec![ScanErr {
            line: 3,
            message: "Unexpected character: %".to_string()
        }])
    );
}

#[test]
fn errors_are_batched_in_source_order() {
    assert_eq!(
        scan("int %main() { return 1foo }"),
        Err(vec![
            ScanErr {
                line: 1,
                message: "Unexpected character: %".to_string()
            },
            ScanErr {
                line: 1,
                message: "Invalid number".to_string()
            }
        ])
    );
}

#[test]
fn end_to_end_token_sequence() {
    assert_eq!(
        scan("int main() { return 0; }"),
        Ok(vec![
            TOKEN::Int,
            TOKEN::IDENTIFIER("main".to_string()),
            TOKEN::LeftParen,
            TOKEN::RightParen,
            TOKEN::LeftBrace,
            TOKEN::Return,
            TOKEN::CONST(0),
            TOKEN::Semicolon,
            TOKEN::RightBrace
        ])
    );
}

#[test]
fn widest_constant_still_fits() {
    assert_eq!(scan("2147483647"), Ok(vec![TOKEN::CONST(2147483647)]));
}

#[test]
fn overflowing_constant_is_a_diagnostic() {
    assert_eq!(
        scan("2147483648"),
        Err(vec![ScanErr {
            line: 1,
            message: "Numeric overflow".to_string()
        }])
    );
    assert_eq!(
        scan("99999999999999999999"),
        Err(vec![ScanErr {
            line: 1,
            message: "Numeric overflow".to_string()
        }])
    );
}

#[test]
fn lexer_run_scans_clean_source() {
    let tokens = lexer::run("return 7 ;");
    assert_eq!(
        tokens,
        vec![TOKEN::Return, TOKEN::CONST(7), TOKEN::Semicolon]
    );
}
