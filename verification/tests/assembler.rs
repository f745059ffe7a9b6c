use tiny::assembler::assemble_source;
use tiny::ast::{Argument, Ident, MacroArgument, Mnemonic, Program, Statement, StatementNode};
use tiny::codegen::{flatten, format_listing, generate_binary};
use tiny::lexer::{dummy_source, SourceLocation};
use tiny::machine::{self, ArgumentType};
use tiny::parser::parse_source;
use tiny::syntax_ext::{auto_address, constants, expand_syntax_extensions, labels, subroutines};
use tiny::util::{Diagnostic, Problem};
use tiny::vm::{Machine, Stop};

fn at(line: usize) -> SourceLocation {
    SourceLocation { filename: "t.asm".to_string(), lineno: line }
}

fn parse(source: &str) -> Program {
    parse_source(source, "t.asm").unwrap()
}

fn op(name: &str, args: Vec<Argument>, line: usize) -> StatementNode {
    Statement::new(
        Statement::Operation(
            Mnemonic(machine::Mnemonic::from_str(name).unwrap()),
            args.into_iter().map(|a| Argument::new(a, at(line))).collect(),
        ),
        at(line),
    )
}

fn op_at(name: &str, args: Vec<(Argument, usize)>, line: usize) -> StatementNode {
    Statement::new(
        Statement::Operation(
            Mnemonic(machine::Mnemonic::from_str(name).unwrap()),
            args.into_iter().map(|(a, l)| Argument::new(a, at(l))).collect(),
        ),
        at(line),
    )
}

fn name(s: &str) -> Ident {
    Ident::from_str(s)
}

#[test]
fn halt_alone_assembles_to_ff() {
    let (binary, warnings) = assemble_source("HALT", "t.asm").unwrap();
    assert_eq!(binary, vec![vec![0xFF]]);
    assert!(warnings.is_empty());
}

const COUNTING: &str = "MOV [2] 0\nMOV [3] 0\nJEQ 6 [3] [1]\nADD [3] 1\nADD [2] [0]\nJMP 2\nMOV [0] [2]\nHALT";

#[test]
fn reference_program_assembles_to_the_known_bytes() {
    let (binary, _) = assemble_source(COUNTING, "t.asm").unwrap();
    assert_eq!(
        binary,
        vec![
            vec![0x08, 0x02, 0x00],
            vec![0x08, 0x03, 0x00],
            vec![0x15, 0x06, 0x03, 0x01],
            vec![0x0B, 0x03, 0x01],
            vec![0x0A, 0x02, 0x00],
            vec![0x0F, 0x02],
            vec![0x07, 0x00, 0x02],
            vec![0xFF],
        ]
    );
    assert_eq!(
        flatten(&binary),
        vec![
            0x08, 0x02, 0x00, 0x08, 0x03, 0x00, 0x15, 0x06, 0x03, 0x01, 0x0B, 0x03, 0x01, 0x0A,
            0x02, 0x00, 0x0F, 0x02, 0x07, 0x00, 0x02, 0xFF
        ]
    );
}

#[test]
fn listing_writes_one_line_for_each_statement() {
    let listing = format_listing(&vec![vec![0x08, 0x02, 0x00], vec![0xFF]]);
    assert_eq!(listing, "0x08 0x02 0x00 \n0xff \n");
    assert_eq!(format_listing(&vec![]), "");
}

#[test]
fn counting_loop_with_labels_multiplies() {
    let source = "MOV [2] 0\nMOV [3] 0\nloop:\nJEQ :done [3] [1]\nADD [3] 1\nADD [2] [0]\nJMP :loop\ndone:\nMOV [0] [2]\nHALT";
    let (binary, _) = assemble_source(source, "t.asm").unwrap();
    let code = flatten(&binary);
    for (k, n) in [(0u8, 0u8), (3, 4), (7, 1), (5, 0), (10, 20)] {
        let mut machine = Machine::new();
        machine.store(0, k);
        machine.store(1, n);
        assert_eq!(machine.run(&code, 10_000), Stop::Halted);
        assert_eq!(machine.load(0), k.wrapping_mul(n));
    }
}

#[test]
fn placeholders_get_consecutive_addresses_in_source_order() {
    let mut program = parse("$a = [_]\nMOV [_] [7]\n@m([_], x, 1)\nlbl:\nADD [_] [_]");
    assert_eq!(auto_address::expand(&mut program), Ok(()));
    let addresses: Vec<Option<u8>> = program
        .iter()
        .flat_map(|stmt| match &stmt.value {
            Statement::Operation(_, args) => args.iter().map(|a| a.value.clone()).collect(),
            Statement::Const(_, value) => vec![value.value.clone()],
            Statement::Macro(_, args) => args
                .iter()
                .filter_map(|a| match &a.value {
                    MacroArgument::Argument(arg) => Some(arg.value.clone()),
                    MacroArgument::Ident(_) => None,
                })
                .collect(),
            _ => vec![],
        })
        .filter_map(|value| match value {
            Argument::Address(a) => Some(a),
            _ => None,
        })
        .collect();
    assert_eq!(addresses, vec![Some(0), Some(1), Some(7), Some(2), Some(3), Some(4)]);
}

#[test]
fn the_257th_placeholder_is_refused() {
    let mut source = String::new();
    for _ in 0..256 {
        source.push_str("NOT [_]\n");
    }
    let mut program = parse(&source);
    assert_eq!(auto_address::expand(&mut program), Ok(()));
    match &program[255].value {
        Statement::Operation(_, args) => assert_eq!(args[0].value, Argument::Address(Some(255))),
        _ => panic!("an operation was expected"),
    }
    source.push_str("NOT [_]\n");
    let mut program = parse(&source);
    let before = parse(&source);
    assert_eq!(
        auto_address::expand(&mut program),
        Err(Diagnostic { problem: Problem::OutOfAddresses, location: at(257) })
    );
    assert_eq!(program, before);
}

#[test]
fn constants_are_replaced_and_their_definitions_removed() {
    let mut program = parse("MOV $a $b\n$a = [3]\n$b = 9\nHALT");
    assert_eq!(constants::expand(&mut program), Ok(vec![]));
    // The place of `$b` is that of the last token that was looked at to tell a
    // reference from a definition: the `$` of the second line.
    assert_eq!(
        program,
        vec![
            op_at("MOV", vec![(Argument::Address(Some(3)), 1), (Argument::Literal(9), 2)], 1),
            op("HALT", vec![], 4)
        ]
    );
}

#[test]
fn a_constant_defined_again_warns_and_the_later_value_holds() {
    let mut program = parse("$a = 1\n$a = 2\nDPRINT $a");
    assert_eq!(
        constants::expand(&mut program),
        Ok(vec![Diagnostic { problem: Problem::ConstantRedefinition(name("a")), location: at(2) }])
    );
    assert_eq!(program, vec![op("DPRINT", vec![Argument::Literal(2)], 3)]);
}

#[test]
fn an_unknown_constant_is_fatal() {
    let mut program = parse("$a = 1\nDPRINT $b");
    assert_eq!(
        constants::expand(&mut program),
        Err(Diagnostic { problem: Problem::UnknownConstant(name("b")), location: at(2) })
    );
    assert_eq!(program, parse("$a = 1\nDPRINT $b"));
}

#[test]
fn a_constant_bound_to_a_label_is_fatal() {
    let mut program = parse("$a = :x\nHALT");
    assert_eq!(
        constants::expand(&mut program),
        Err(Diagnostic { problem: Problem::InvalidConstantValue, location: at(1) })
    );
}

#[test]
fn labels_become_byte_offsets() {
    let mut program = parse("start:\nMOV [0] 1\nJMP :end\nmiddle:\nJMP :start\nend:\nJMP :middle\nHALT");
    assert_eq!(labels::expand(&mut program), Ok(vec![]));
    assert_eq!(
        program,
        vec![
            op("MOV", vec![Argument::Address(Some(0)), Argument::Literal(1)], 2),
            op("JMP", vec![Argument::Literal(7)], 3),
            op("JMP", vec![Argument::Literal(0)], 5),
            op("JMP", vec![Argument::Literal(5)], 7),
            op("HALT", vec![], 8),
        ]
    );
}

#[test]
fn a_label_defined_again_warns_and_the_later_offset_holds() {
    let mut program = parse("a:\nHALT\na:\nJMP :a");
    assert_eq!(
        labels::expand(&mut program),
        Ok(vec![Diagnostic { problem: Problem::LabelRedefinition(name("a")), location: at(3) }])
    );
    assert_eq!(program, vec![op("HALT", vec![], 2), op("JMP", vec![Argument::Literal(1)], 4)]);
}

#[test]
fn an_unknown_label_is_fatal() {
    let mut program = parse("JMP :nowhere");
    assert_eq!(
        labels::expand(&mut program),
        Err(Diagnostic { problem: Problem::UnknownLabel(name("nowhere")), location: at(1) })
    );
}

#[test]
fn a_label_behind_byte_255_cannot_be_referred_to() {
    let mut source = String::new();
    for _ in 0..85 {
        source.push_str("MOV [0] 0\n");
    }
    source.push_str("near:\nHALT\nfar:\nJMP :near\n");
    let mut program = parse(&source);
    assert_eq!(labels::expand(&mut program), Ok(vec![]));
    match &program[86].value {
        Statement::Operation(_, args) => assert_eq!(args[0].value, Argument::Literal(255)),
        _ => panic!("an operation was expected"),
    }
    source.push_str("JMP :far\n");
    let mut program = parse(&source);
    assert_eq!(
        labels::expand(&mut program),
        Err(Diagnostic {
            problem: Problem::LabelOverflow { name: name("far"), offset: 256 },
            location: at(90)
        })
    );
}

#[test]
fn subroutines_are_rewritten_into_labels_moves_and_jumps() {
    let mut program = parse("@call(double, 4)\nHALT\n@start(double, 1)\nADD $arg0 2\n@end()\n@other(1)");
    assert_eq!(subroutines::expand(&mut program), Ok(()));
    let placeholder = |n: &str| {
        Statement::new(
            Statement::Const(name(n), Argument::new(Argument::Address(None), dummy_source())),
            dummy_source(),
        )
    };
    let call = op("MOV", vec![Argument::Const(name("arg0")), Argument::Literal(4)], 1);
    assert_eq!(
        program,
        vec![
            placeholder("return"),
            placeholder("jump_back"),
            placeholder("arg0"),
            call,
            op("MOV", vec![Argument::Const(name("jump_back")), Argument::Label(name("ret3"))], 1),
            op("JMP", vec![Argument::Label(name("double"))], 1),
            Statement::new(Statement::Label(name("ret3")), at(1)),
            op("HALT", vec![], 2),
            Statement::new(Statement::Label(name("double")), at(3)),
            op("MOV", vec![Argument::Const(name("return")), Argument::Literal(0)], 3),
            op("ADD", vec![Argument::Const(name("arg0")), Argument::Literal(2)], 4),
            op("JMP", vec![Argument::Const(name("jump_back"))], 5),
        ]
    );
}

#[test]
fn a_program_without_subroutines_is_left_alone() {
    let mut program = parse("@end()\nHALT");
    assert_eq!(subroutines::expand(&mut program), Ok(()));
    assert_eq!(program, parse("@end()\nHALT"));
}

#[test]
fn the_preamble_has_an_argument_for_the_largest_arity() {
    let mut program = parse("@start(a, 0)\n@end()\n@start(b, 12)\n@end()");
    assert_eq!(subroutines::expand(&mut program), Ok(()));
    let names: Vec<String> = program
        .iter()
        .filter_map(|stmt| match &stmt.value {
            Statement::Const(n, _) => Some(n.as_str()),
            _ => None,
        })
        .collect();
    let mut expected = vec!["return".to_string(), "jump_back".to_string()];
    for i in 0..12 {
        expected.push(format!("arg{}", i));
    }
    assert_eq!(names, expected);
}

fn subroutine_error(source: &str) -> Diagnostic {
    let mut program = parse(source);
    let error = subroutines::expand(&mut program).unwrap_err();
    assert_eq!(program, parse(source));
    error
}

#[test]
fn malformed_subroutine_macros_are_fatal() {
    assert_eq!(
        subroutine_error("@start(a, 0)\n@start(b, 0)"),
        Diagnostic { problem: Problem::NestedSubroutine, location: at(2) }
    );
    assert_eq!(
        subroutine_error("@start(a, 2)\n@end()\n@call(a, 1)"),
        Diagnostic { problem: Problem::WrongArgumentCount { found: 1, expected: 2 }, location: at(3) }
    );
    assert_eq!(
        subroutine_error("@start(a, 0)\n@end()\n@call(b)"),
        Diagnostic { problem: Problem::UnknownSubroutine(name("b")), location: at(3) }
    );
    assert_eq!(
        subroutine_error("@start(a)"),
        Diagnostic { problem: Problem::StartArgumentCount(1), location: at(1) }
    );
    assert_eq!(
        subroutine_error("@start(1, 1)"),
        Diagnostic { problem: Problem::ExpectedSubroutineName, location: at(1) }
    );
    assert_eq!(
        subroutine_error("@start(a, b)"),
        Diagnostic { problem: Problem::ExpectedArgumentCount, location: at(1) }
    );
    assert_eq!(
        subroutine_error("@start(a, 0)\n@end()\n@start(a, 1)"),
        Diagnostic { problem: Problem::SubroutineRedefinition(name("a")), location: at(3) }
    );
    assert_eq!(
        subroutine_error("@start(a, 0)\n@end(1)"),
        Diagnostic { problem: Problem::EndTakesNoArguments, location: at(2) }
    );
    assert_eq!(
        subroutine_error("@start(a, 0)\n@end()\n@call()"),
        Diagnostic { problem: Problem::CallWithoutName, location: at(3) }
    );
    assert_eq!(
        subroutine_error("@start(a, 0)\n@end()\n@call(1)"),
        Diagnostic { problem: Problem::ExpectedSubroutineName, location: at(3) }
    );
    assert_eq!(
        subroutine_error("@start(a, 1)\n@end()\n@call(a, x)"),
        Diagnostic { problem: Problem::ExpectedArgument(name("x")), location: at(3) }
    );
}

#[test]
fn a_subroutine_returns_to_its_caller() {
    let source = "MOV [10] 0\n@call(add, 5)\n@call(add, 7)\nHALT\n@start(add, 1)\nADD [10] $arg0\n@end()";
    let (binary, warnings) = assemble_source(source, "t.asm").unwrap();
    assert!(warnings.is_empty());
    let mut machine = Machine::new();
    assert_eq!(machine.run(&flatten(&binary), 1000), Stop::Halted);
    assert_eq!(machine.load(10), 12);
}

#[test]
fn the_passes_refuse_an_include_that_is_left() {
    let mut program = parse("HALT\n#import <lib.asm>");
    assert_eq!(
        expand_syntax_extensions(&mut program),
        Err(Diagnostic { problem: Problem::UnresolvedInclude, location: at(2) })
    );
}

#[test]
fn the_passes_collect_the_warnings_of_constants_and_labels() {
    let mut program = parse("$a = 1\n$a = 2\nx:\nx:\nMOV [_] $a\nJMP :x");
    assert_eq!(
        expand_syntax_extensions(&mut program),
        Ok(vec![
            Diagnostic { problem: Problem::ConstantRedefinition(name("a")), location: at(2) },
            Diagnostic { problem: Problem::LabelRedefinition(name("x")), location: at(4) },
        ])
    );
    assert_eq!(
        program,
        vec![
            op_at("MOV", vec![(Argument::Address(Some(0)), 5), (Argument::Literal(2), 6)], 5),
            op("JMP", vec![Argument::Literal(0)], 6)
        ]
    );
}

#[test]
fn the_encoder_reports_the_shape_and_all_legal_shapes() {
    let program = vec![op("MOV", vec![Argument::Literal(1), Argument::Literal(2)], 4)];
    assert_eq!(
        generate_binary(program),
        Err(Diagnostic {
            problem: Problem::InvalidArguments {
                mnemonic: machine::Mnemonic::MOV,
                shape: vec![ArgumentType::Literal, ArgumentType::Literal],
                allowed: vec![
                    vec![ArgumentType::Address, ArgumentType::Address],
                    vec![ArgumentType::Address, ArgumentType::Literal]
                ],
            },
            location: at(4)
        })
    );
}

#[test]
fn the_encoder_refuses_what_the_passes_left() {
    let refused = |stmt: StatementNode| generate_binary(vec![stmt]).unwrap_err().problem;
    assert_eq!(
        refused(Statement::new(Statement::Label(name("x")), at(1))),
        Problem::UnprocessedStatement
    );
    assert_eq!(refused(op("JMP", vec![Argument::Label(name("x"))], 1)), Problem::UnprocessedArgument);
    assert_eq!(refused(op("JMP", vec![Argument::Const(name("x"))], 1)), Problem::UnprocessedArgument);
    assert_eq!(refused(op("NOT", vec![Argument::Address(None)], 1)), Problem::UnresolvedAddress);
}

#[test]
fn a_character_is_encoded_as_a_literal() {
    assert_eq!(
        generate_binary(vec![op("APRINT", vec![Argument::Char(33)], 1)]),
        Ok(vec![vec![0x21, 33]])
    );
    assert_eq!(assemble_source("APRINT '!'", "t.asm").unwrap().0, vec![vec![0x21, 33]]);
}

#[test]
fn every_mnemonic_is_encoded_with_its_first_fitting_opcode() {
    let source = "AND [1] [2]\nAND [1] 2\nOR [1] [2]\nOR [1] 2\nXOR [1] [2]\nXOR [1] 2\nNOT [1]\nMOV [1] [2]\nMOV [1] 2\nRANDOM [1]\nADD [1] [2]\nADD [1] 2\nSUB [1] [2]\nSUB [1] 2\nJMP [1]\nJMP 1\nJZ [1] [2]\nJZ [1] 2\nJZ 1 [2]\nJZ 1 2\nJEQ [1] [2] [3]\nJEQ 1 [2] [3]\nJEQ [1] [2] 3\nJEQ 1 [2] 3\nJLS [1] [2] [3]\nJLS 1 [2] [3]\nJLS [1] [2] 3\nJLS 1 [2] 3\nJGT [1] [2] [3]\nJGT 1 [2] [3]\nJGT [1] [2] 3\nJGT 1 [2] 3\nAPRINT [1]\nAPRINT 1\nDPRINT [1]\nDPRINT 1\nAREAD [1]\nHALT";
    let (binary, _) = assemble_source(source, "t.asm").unwrap();
    let opcodes: Vec<u8> = binary.iter().map(|stmt| stmt[0]).collect();
    let mut expected: Vec<u8> = (0x00..=0x24).collect();
    expected.push(0xFF);
    assert_eq!(opcodes, expected);
    for stmt in &binary {
        let instruction = machine::decode_opcode(stmt[0]).unwrap();
        assert_eq!(stmt.len(), 1 + instruction.argc);
    }
}
