use tiny::ast::{Argument, IPath, Ident, MacroArgument, Mnemonic, Statement};
use tiny::lexer::Token::{
    AT, CHAR, COLON, COMMA, DOLLAR, EQ, HASH, IDENT, INTEGER, LBRACKET, LPAREN, MNEMONIC, PATH,
    RBRACKET, RPAREN, UNDERSCORE,
};
use tiny::lexer::{dummy_source, Token};
use tiny::machine;
use tiny::parser::Parser;
use tiny::util::{rcstr, Diagnostic};

fn parse<F, T>(toks: Vec<Token>, f: F) -> Result<T, Diagnostic>
where
    F: Fn(&mut Parser<Vec<Token>>) -> Result<T, Diagnostic>,
{
    f(&mut Parser::with_lexer(toks)?)
}

fn mnemonic(s: &str) -> machine::Mnemonic {
    machine::Mnemonic::from_str(s).unwrap()
}

fn ident_from_str(s: &str) -> Ident {
    Ident(s.to_string())
}

fn path_from_str(s: &str) -> IPath {
    IPath(s.to_string())
}

#[test]
fn parser_test_statements() {
    assert_eq!(
        parse(
            vec![HASH, IDENT(rcstr("import")), PATH(rcstr("as/d")), MNEMONIC(mnemonic("HALT"))],
            |p| p.parse()
        ),
        Ok(vec![
            Statement::new(Statement::Include(path_from_str("as/d")), dummy_source()),
            Statement::new(Statement::Operation(Mnemonic(mnemonic("HALT")), vec![]), dummy_source())
        ])
    )
}

#[test]
fn parser_test_include() {
    assert_eq!(
        parse(vec![HASH, IDENT(rcstr("import")), PATH(rcstr("as/d"))], |p| p.parse_statement()),
        Ok(Statement::new(Statement::Include(path_from_str("as/d")), dummy_source()))
    )
}

#[test]
fn parser_test_label_def() {
    assert_eq!(
        parse(vec![IDENT(rcstr("lbl")), COLON], |p| p.parse_statement()),
        Ok(Statement::new(Statement::Label(ident_from_str("lbl")), dummy_source()))
    )
}

#[test]
fn parser_test_const_def() {
    assert_eq!(
        parse(vec![DOLLAR, IDENT(rcstr("c")), EQ, INTEGER(0)], |p| p.parse_statement()),
        Ok(Statement::new(
            Statement::Const(ident_from_str("c"), Argument::new(Argument::Literal(0), dummy_source())),
            dummy_source()
        ))
    )
}

#[test]
fn parser_test_operation() {
    assert_eq!(
        parse(vec![MNEMONIC(mnemonic("MOV")), INTEGER(0)], |p| p.parse_statement()),
        Ok(Statement::new(
            Statement::Operation(
                Mnemonic(mnemonic("MOV")),
                vec![Argument::new(Argument::Literal(0), dummy_source())]
            ),
            dummy_source()
        ))
    )
}

#[test]
fn parser_test_macro() {
    assert_eq!(
        parse(
            vec![AT, IDENT(rcstr("macro")), LPAREN, INTEGER(0), COMMA, INTEGER(0), RPAREN],
            |p| p.parse_statement()
        ),
        Ok(Statement::new(
            Statement::Macro(
                ident_from_str("macro"),
                vec![
                    MacroArgument::new(
                        MacroArgument::Argument(Argument::new(Argument::Literal(0), dummy_source())),
                        dummy_source()
                    ),
                    MacroArgument::new(
                        MacroArgument::Argument(Argument::new(Argument::Literal(0), dummy_source())),
                        dummy_source()
                    )
                ]
            ),
            dummy_source()
        ))
    )
}

#[test]
fn parser_test_literal() {
    assert_eq!(
        parse(vec![INTEGER(0)], |p| p.parse_argument()),
        Ok(Argument::new(Argument::Literal(0), dummy_source()))
    )
}

#[test]
fn parser_test_address() {
    assert_eq!(
        parse(vec![LBRACKET, INTEGER(0), RBRACKET], |p| p.parse_argument()),
        Ok(Argument::new(Argument::Address(Some(0)), dummy_source()))
    )
}

#[test]
fn parser_test_address_auto() {
    assert_eq!(
        parse(vec![LBRACKET, UNDERSCORE, RBRACKET], |p| p.parse_argument()),
        Ok(Argument::new(Argument::Address(None), dummy_source()))
    )
}

#[test]
fn parser_test_const() {
    assert_eq!(
        parse(vec![DOLLAR, IDENT(rcstr("asd"))], |p| p.parse_argument()),
        Ok(Argument::new(Argument::Const(ident_from_str("asd")), dummy_source()))
    )
}

#[test]
fn parser_test_label() {
    assert_eq!(
        parse(vec![COLON, IDENT(rcstr("asd"))], |p| p.parse_argument()),
        Ok(Argument::new(Argument::Label(ident_from_str("asd")), dummy_source()))
    )
}

#[test]
fn parser_test_char() {
    assert_eq!(
        parse(vec![CHAR(0)], |p| p.parse_argument()),
        Ok(Argument::new(Argument::Char(0), dummy_source()))
    )
}

#[test]
fn parser_test_macro_arg_arg() {
    assert_eq!(
        parse(vec![INTEGER(0)], |p| p.parse_macro_argument()),
        Ok(MacroArgument::new(
            MacroArgument::Argument(Argument::new(Argument::Literal(0), dummy_source())),
            dummy_source()
        ))
    )
}

#[test]
fn parser_test_macro_arg_ident() {
    assert_eq!(
        parse(vec![IDENT(rcstr("asd"))], |p| p.parse_macro_argument()),
        Ok(MacroArgument::new(MacroArgument::Ident(ident_from_str("asd")), dummy_source()))
    )
}

#[test]
fn parser_test_op_and_const() {
    assert_eq!(
        parse(
            vec![MNEMONIC(mnemonic("HALT")), DOLLAR, IDENT(rcstr("c")), EQ, INTEGER(0)],
            |p| p.parse()
        ),
        Ok(vec![
            Statement::new(Statement::Operation(Mnemonic(mnemonic("HALT")), vec![]), dummy_source()),
            Statement::new(
                Statement::Const(ident_from_str("c"), Argument::new(Argument::Literal(0), dummy_source())),
                dummy_source()
            )
        ])
    )
}
