use tiny::ast::{Argument, Ident, MacroArgument, Statement};
use tiny::lexer::{dummy_source, SourceLocation, Token};
use tiny::machine::{format_shape, format_shapes, ArgumentType, Mnemonic};
use tiny::parser::parse_source;
use tiny::util::{rcstr, rcstring, Diagnostic, Problem};

#[test]
fn statements_are_written_as_text() {
    let program = parse_source(
        "#import <lib/a.asm>\nloop:\n$x = [_]\nMOV [3] 'a'\nJMP :loop\nDPRINT $x 7\n@call(f, 1, [2])\n@end()\nHALT",
        "t.asm",
    )
    .unwrap();
    let texts: Vec<String> = program.iter().map(|stmt| stmt.to_string()).collect();
    assert_eq!(
        texts,
        vec![
            "#include <lib/a.asm>",
            "loop:",
            "$x = [_]",
            "MOV [3] '97'",
            "JMP :loop",
            "DPRINT $x 7",
            "@call(f 1 [2])",
            "@end()",
            "HALT",
        ]
    );
    assert_eq!(Argument::Address(Some(255)).to_string(), "[255]");
    assert_eq!(MacroArgument::Ident(Ident::from_str("f")).to_string(), "f");
}

#[test]
fn tokens_and_places_are_written_as_text() {
    assert_eq!(dummy_source().to_string(), "<input>:0");
    assert_eq!(SourceLocation { filename: "a.asm".to_string(), lineno: 120 }.to_string(), "a.asm:120");
    let texts: Vec<String> = vec![
        Token::HASH,
        Token::RBRACKET,
        Token::MNEMONIC(Mnemonic::JGT),
        Token::IDENT("abc".to_string()),
        Token::INTEGER(42),
        Token::CHAR(b'x'),
        Token::PATH("p/q".to_string()),
        Token::EOF,
        Token::PLACEHOLDER,
    ]
    .iter()
    .map(|t| t.to_string())
    .collect();
    assert_eq!(texts, vec!["#", "]", "JGT", "abc", "42", "x", "p/q", "EOF", "PLACEHOLDER"]);
}

#[test]
fn shapes_are_written_as_text() {
    assert_eq!(format_shape(&vec![]), "[]");
    assert_eq!(format_shape(&vec![ArgumentType::Address]), "[Address]");
    assert_eq!(
        format_shape(&vec![ArgumentType::Literal, ArgumentType::Address, ArgumentType::Literal]),
        "[Literal, Address, Literal]"
    );
    assert_eq!(format_shapes(&vec![]), "");
    assert_eq!(
        format_shapes(&vec![vec![ArgumentType::Address], vec![ArgumentType::Literal], vec![]]),
        "[Address] or [Literal] or []"
    );
}

#[test]
fn problems_say_what_is_wrong() {
    let name = |s: &str| Ident::from_str(s);
    assert_eq!(Problem::UnknownConstant(name("x")).message(), "unknown constant: $x");
    assert_eq!(Problem::UnknownLabel(name("x")).message(), "unknown label: x");
    assert_eq!(Problem::UnknownSubroutine(name("f")).message(), "unknown subroutine: f");
    assert_eq!(
        Problem::WrongArgumentCount { found: 1, expected: 12 }.message(),
        "wrong argument count: found 1 args, expected 12"
    );
    assert_eq!(Problem::NestedSubroutine.message(), "can't nest subroutines");
    assert_eq!(
        Problem::InvalidArguments {
            mnemonic: Mnemonic::NOT,
            shape: vec![ArgumentType::Literal],
            allowed: vec![vec![ArgumentType::Address]],
        }
        .message(),
        "invalid arguments for NOT: found [Literal], allowed: [Address]"
    );
    assert_eq!(
        Problem::ExpectedChar { needed: '>', actual: None }.message(),
        "Expected `>`, found `EOF`"
    );
    assert_eq!(
        Problem::ExpectedChar { needed: '\'', actual: Some('b') }.message(),
        "Expected `'`, found `b`"
    );
    assert_eq!(
        Problem::InvalidEscape('t').message(),
        "unsupported or invalid escape sequence: \\t"
    );
    assert_eq!(
        Problem::UnexpectedToken { token: Token::COMMA, rule: "a statement".to_string() }.message(),
        "unexpected token: `,`, expected a statement"
    );
    assert_eq!(
        Problem::ExpectedToken { wanted: Token::COLON, token: Token::EOF }.message(),
        "expected `:`, found `EOF`"
    );
    assert_eq!(
        Problem::LabelOverflow { name: name("far"), offset: 256 }.message(),
        "overflow: label far stands at 256 > 255"
    );
    assert_eq!(
        Diagnostic {
            problem: Problem::InvalidInteger("999".to_string()),
            location: SourceLocation { filename: "a.asm".to_string(), lineno: 3 }
        }
        .to_string(),
        "a.asm:3: invalid integer: 999"
    );
}

#[test]
fn names_are_made_from_strings() {
    assert_eq!(rcstr("abc"), "abc");
    assert_eq!(rcstring("abc".to_string()), "abc");
    let ident = Ident::from_string("loop".to_string());
    assert_eq!(ident, Ident::from_str("loop"));
    assert_eq!(ident.as_str(), "loop");
    assert_eq!(ident.clone(), ident);
    assert!(ident.same(&Ident::from_str("loop")));
    assert!(!ident.same(&Ident::from_str("loops")));
    assert!(ident.is("loop"));
    let path = tiny::ast::IPath::from_string("a/b".to_string());
    assert_eq!(path, tiny::ast::IPath::from_str("a/b"));
    assert_eq!(path.as_str(), "a/b");
    assert_eq!(
        Statement::new(Statement::Label(ident.clone()), dummy_source()).to_string(),
        "loop:"
    );
}
