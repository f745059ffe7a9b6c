use tiny::ast::{Argument, Ident, MacroArgument, Statement};
use tiny::lexer::{FileLexer, Lexer, SourceLocation, Token};
use tiny::machine::Mnemonic;
use tiny::parser::{parse_source, Parser};
use tiny::syntax_ext::imports::Importer;
use tiny::util::{Diagnostic, Problem};

fn at(line: usize) -> SourceLocation {
    SourceLocation { filename: "t.asm".to_string(), lineno: line }
}

fn lex_error(source: &str) -> Diagnostic {
    FileLexer::new(source, "t.asm").tokenize().unwrap_err()
}

#[test]
fn the_lexer_reads_every_kind_of_token() {
    let tokens = FileLexer::new("#:$@,=_()[] MOV ab_1 200 'x' <a b>", "t.asm").tokenize().unwrap();
    assert_eq!(
        tokens,
        vec![
            Token::HASH,
            Token::COLON,
            Token::DOLLAR,
            Token::AT,
            Token::COMMA,
            Token::EQ,
            Token::UNDERSCORE,
            Token::LPAREN,
            Token::RPAREN,
            Token::LBRACKET,
            Token::RBRACKET,
            Token::MNEMONIC(Mnemonic::MOV),
            Token::IDENT("ab_1".to_string()),
            Token::INTEGER(200),
            Token::CHAR(b'x'),
            Token::PATH("a b".to_string()),
        ]
    );
    assert_eq!(FileLexer::new("", "t.asm").tokenize(), Ok(vec![]));
}

#[test]
fn the_lexer_hands_out_eof_for_ever() {
    let mut lexer = FileLexer::new("HALT\n\n", "t.asm");
    assert_eq!(lexer.next_token(), Ok(Token::MNEMONIC(Mnemonic::HALT)));
    assert_eq!(lexer.get_source(), at(1));
    assert_eq!(lexer.next_token(), Ok(Token::EOF));
    assert_eq!(lexer.get_source(), at(3));
    assert_eq!(lexer.next_token(), Ok(Token::EOF));
    let mut list = vec![Token::AT];
    assert_eq!(list.next_token(), Ok(Token::AT));
    assert_eq!(list.next_token(), Ok(Token::EOF));
    assert_eq!(list.next_token(), Ok(Token::EOF));
    let mut list = vec![Token::AT, Token::HASH];
    assert_eq!(list.tokenize(), Ok(vec![Token::AT, Token::HASH]));
    assert_eq!(list.len(), 2);
}

#[test]
fn the_lexer_refuses_what_is_no_token() {
    assert_eq!(
        lex_error("\nMOVE"),
        Diagnostic { problem: Problem::InvalidMnemonic("MOVE".to_string()), location: at(2) }
    );
    assert_eq!(
        lex_error("256"),
        Diagnostic { problem: Problem::InvalidInteger("256".to_string()), location: at(1) }
    );
    assert_eq!(
        lex_error("0000300"),
        Diagnostic { problem: Problem::InvalidInteger("0000300".to_string()), location: at(1) }
    );
    assert_eq!(lex_error("!"), Diagnostic { problem: Problem::UnknownToken('!'), location: at(1) });
    assert_eq!(lex_error("'"), Diagnostic { problem: Problem::UnfinishedChar, location: at(1) });
    assert_eq!(lex_error("'\\"), Diagnostic { problem: Problem::UnfinishedChar, location: at(1) });
    assert_eq!(
        lex_error("'\\t'"),
        Diagnostic { problem: Problem::InvalidEscape('t'), location: at(1) }
    );
    assert_eq!(
        lex_error("'ab'"),
        Diagnostic {
            problem: Problem::ExpectedChar { needed: '\'', actual: Some('b') },
            location: at(1)
        }
    );
    assert_eq!(
        lex_error("<abc"),
        Diagnostic {
            problem: Problem::ExpectedChar { needed: '>', actual: None },
            location: at(1)
        }
    );
}

#[test]
fn leading_zeros_and_escapes_are_read() {
    let tokens = FileLexer::new("007 255 '\\n' '\\''", "t.asm").tokenize().unwrap();
    assert_eq!(
        tokens,
        vec![Token::INTEGER(7), Token::INTEGER(255), Token::CHAR(10), Token::CHAR(39)]
    );
}

#[test]
fn a_source_is_parsed_with_its_places() {
    let program = parse_source("; demo\n$x = [_]\nloop: MOV $x 'a'\n@call(f, :loop, 3)\n#import <lib.asm>", "t.asm").unwrap();
    let arg = |value: Argument, line: usize| Argument::new(value, at(line));
    assert_eq!(
        program,
        vec![
            Statement::new(
                Statement::Const(Ident::from_str("x"), arg(Argument::Address(None), 2)),
                at(2)
            ),
            Statement::new(Statement::Label(Ident::from_str("loop")), at(3)),
            Statement::new(
                Statement::Operation(
                    tiny::ast::Mnemonic(Mnemonic::MOV),
                    vec![
                        arg(Argument::Const(Ident::from_str("x")), 3),
                        arg(Argument::Char(b'a'), 3)
                    ]
                ),
                at(3)
            ),
            Statement::new(
                Statement::Macro(
                    Ident::from_str("call"),
                    vec![
                        MacroArgument::new(MacroArgument::Ident(Ident::from_str("f")), at(4)),
                        MacroArgument::new(
                            MacroArgument::Argument(arg(Argument::Label(Ident::from_str("loop")), 4)),
                            at(4)
                        ),
                        MacroArgument::new(MacroArgument::Argument(arg(Argument::Literal(3), 4)), at(4)),
                    ]
                ),
                at(4)
            ),
            Statement::new(Statement::Include(tiny::ast::IPath::from_str("lib.asm")), at(5)),
        ]
    );
    assert_eq!(parse_source("", "t.asm"), Ok(vec![]));
    assert_eq!(parse_source("@m()", "t.asm").unwrap().len(), 1);
}

#[test]
fn the_parser_refuses_what_is_no_statement() {
    let error = |source: &str| parse_source(source, "t.asm").unwrap_err();
    assert_eq!(
        error("HALT\n="),
        Diagnostic {
            problem: Problem::UnexpectedToken {
                token: Token::EQ,
                rule: "a statement".to_string()
            },
            location: at(1)
        }
    );
    assert_eq!(
        error("abc HALT"),
        Diagnostic {
            problem: Problem::ExpectedToken {
                wanted: Token::COLON,
                token: Token::MNEMONIC(Mnemonic::HALT)
            },
            location: at(1)
        }
    );
    assert_eq!(
        error("MOV [x]"),
        Diagnostic {
            problem: Problem::UnexpectedToken {
                token: Token::IDENT("x".to_string()),
                rule: "an address".to_string()
            },
            location: at(1)
        }
    );
    assert_eq!(
        error("$a = HALT"),
        Diagnostic {
            problem: Problem::UnexpectedToken {
                token: Token::MNEMONIC(Mnemonic::HALT),
                rule: "an argument".to_string()
            },
            location: at(1)
        }
    );
    assert_eq!(
        error("#include <a>"),
        Diagnostic {
            problem: Problem::ExpectedToken {
                wanted: Token::IDENT("import".to_string()),
                token: Token::IDENT("include".to_string())
            },
            location: at(1)
        }
    );
    assert_eq!(
        error("#import x"),
        Diagnostic {
            problem: Problem::UnexpectedToken {
                token: Token::IDENT("x".to_string()),
                rule: "a path".to_string()
            },
            location: at(1)
        }
    );
    assert_eq!(
        error("@(1)"),
        Diagnostic {
            problem: Problem::UnexpectedToken {
                token: Token::LPAREN,
                rule: "a identifier".to_string()
            },
            location: at(1)
        }
    );
    assert_eq!(error("HALT !").problem, Problem::UnknownToken('!'));
}

#[test]
fn a_dollar_begins_an_argument_unless_an_assignment_follows() {
    let program = parse_source("MOV $a $b\n$c = 1", "t.asm").unwrap();
    assert_eq!(program.len(), 2);
    match &program[0].value {
        Statement::Operation(_, args) => assert_eq!(args.len(), 2),
        _ => panic!("an operation was expected"),
    }
    let mut parser = Parser::with_lexer(vec![Token::DOLLAR, Token::AT, Token::EQ]).unwrap();
    assert_eq!(parser.look_ahead(2), Ok(Token::EQ));
    assert_eq!(parser.look_ahead(1), Ok(Token::AT));
    assert_eq!(parser.look_ahead(3), Ok(Token::EOF));
}

#[test]
fn imports_are_found_and_put_in_place() {
    let mut program = parse_source("HALT\n#import <lib.asm>\nHALT", "dir/main.asm").unwrap();
    let mut importer = Importer::new();
    let request = importer.next(&program).unwrap();
    assert_eq!(request.index, 1);
    assert_eq!(request.path.as_str(), "lib.asm");
    assert_eq!(request.location.filename, "dir/main.asm");
    assert_eq!(importer.accept(&request, "dir/lib.asm"), Ok(()));
    assert_eq!(importer.inline(&mut program, "dir/lib.asm", "NOT [1]\n#import <more.asm>"), Ok(()));
    assert_eq!(program.len(), 4);
    assert_eq!(program[1].location.filename, "dir/lib.asm");
    let request = importer.next(&program).unwrap();
    assert_eq!(request.index, 2);
    assert_eq!(request.location.filename, "dir/lib.asm");
    assert_eq!(importer.accept(&request, "dir/more.asm"), Ok(()));
    assert_eq!(importer.inline(&mut program, "dir/more.asm", ""), Ok(()));
    assert_eq!(program.len(), 3);
    assert!(importer.next(&program).is_none());
    assert_eq!(
        program.iter().map(|s| s.location.lineno).collect::<Vec<_>>(),
        vec![1, 1, 3]
    );
}

#[test]
fn a_file_that_includes_itself_is_refused() {
    let mut program = parse_source("#import <a.asm>", "a.asm").unwrap();
    let mut importer = Importer::new();
    let request = importer.next(&program).unwrap();
    assert_eq!(importer.accept(&request, "a.asm"), Ok(()));
    assert_eq!(importer.inline(&mut program, "a.asm", "#import <a.asm>"), Ok(()));
    let request = importer.next(&program).unwrap();
    assert_eq!(
        importer.accept(&request, "a.asm"),
        Err(Diagnostic {
            problem: Problem::CircularImport("a.asm".to_string()),
            location: SourceLocation { filename: "a.asm".to_string(), lineno: 1 }
        })
    );
    let before = parse_source("#import <a.asm>", "a.asm").unwrap();
    assert_eq!(
        importer.inline(&mut program, "a.asm", "MOVE").unwrap_err().problem,
        Problem::InvalidMnemonic("MOVE".to_string())
    );
    assert_eq!(program, before);
}
