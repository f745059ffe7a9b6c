use tiny::lexer::Token::{CHAR, IDENT, INTEGER, MNEMONIC, PATH};
use tiny::lexer::{FileLexer, Lexer, Token};
use tiny::machine::Mnemonic;

fn tokenize(src: &str) -> Vec<Token> {
    FileLexer::new(src, "<test>").tokenize().unwrap()
}

#[test]
fn lexer_test_mnemonic() {
    assert_eq!(tokenize("MOV"), vec![MNEMONIC(Mnemonic::from_str("MOV").unwrap())]);
}

#[test]
fn lexer_test_ident() {
    assert_eq!(tokenize("abc"), vec![IDENT("abc".to_string())]);
}

#[test]
fn test_ident_with_underscore() {
    assert_eq!(tokenize("abc_efg"), vec![IDENT("abc_efg".to_string())]);
}

#[test]
fn lexer_test_digit() {
    assert_eq!(tokenize("128"), vec![INTEGER(128)]);
}

#[test]
fn lexer_test_char() {
    assert_eq!(tokenize("'a'"), vec![CHAR('a' as u8)]);
    assert_eq!(tokenize("' '"), vec![CHAR(' ' as u8)]);
    assert_eq!(tokenize("'\n'"), vec![CHAR('\n' as u8)]);
    assert_eq!(tokenize("'\\\''"), vec![CHAR('\'' as u8)]);
}

#[test]
fn lexer_test_path() {
    assert_eq!(tokenize("<asd>"), vec![PATH("asd".to_string())]);
}

#[test]
fn lexer_test_comment() {
    assert_eq!(tokenize("; asd"), vec![]);
    assert_eq!(
        tokenize("; asd\nMOV ;asd\nMOV"),
        vec![
            MNEMONIC(Mnemonic::from_str("MOV").unwrap()),
            MNEMONIC(Mnemonic::from_str("MOV").unwrap())
        ]
    );
}

#[test]
fn lexer_test_whitespace() {
    assert_eq!(tokenize("\n\n\n\n     \n\t\n"), vec![]);
    assert_eq!(
        tokenize("      MOV        \n\n MOV"),
        vec![
            MNEMONIC(Mnemonic::from_str("MOV").unwrap()),
            MNEMONIC(Mnemonic::from_str("MOV").unwrap())
        ]
    );
}

#[test]
fn lexer_test_line_counter() {
    let mut lx = FileLexer::new("MOV\nMOV", "<test>");
    lx.tokenize().unwrap();
    assert_eq!(lx.lineno, 2);

    let mut lx = FileLexer::new("MOV\r\nMOV", "<test>");
    lx.tokenize().unwrap();
    assert_eq!(lx.lineno, 2);

    let mut lx = FileLexer::new("#include<lib\\something>", "<test>");
    lx.tokenize().unwrap();
    assert_eq!(lx.lineno, 1);
}
