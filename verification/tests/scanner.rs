use clex::lexer::scanner::{ScanErr, Scanner, TOKEN};

#[test]
fn test_scan_token_valid() {
    env_logger::init();
    let rand_num: i32 = rand::random_range(0..9999);
    let source = format!("  int \tmain() \n{{ return  {};   \n}}", rand_num);
    let mut scanner = Scanner::new(source.as_str());
    let tokens = scanner.scan_token().expect("scan token failed");
    assert_eq!(
        tokens,
        vec![
            TOKEN::Int,
            TOKEN::IDENTIFIER("main".to_string()),
            TOKEN::LeftParen,
            TOKEN::RightParen,
            TOKEN::LeftBrace,
            TOKEN::Return,
            TOKEN::CONST(rand_num),
            TOKEN::Semicolon,
            TOKEN::RightBrace
        ]
    );
}

#[test]
fn test_scan_token_invalid() {
    let source = format!("int %main() {{ return 1foo }}");
    let mut scanner = Scanner::new(source.as_str());
    assert_eq!(
        scanner.scan_token(),
        Err(vec![
            ScanErr {
                line: 1,
                message: "Unexpected character: %".to_string()
            },
            ScanErr {
                line: 1,
                message: "Invalid number".to_string()
            }
        ])
    );
}
